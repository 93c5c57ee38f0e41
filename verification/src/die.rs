//! A six-faced die whose face values change during play.

use crate::chance::random_index;
use vstd::prelude::*;

verus! {

/// Number of faces on every die.
pub const FACES: usize = 6;

/// Faces listed from the smallest to the largest.
pub open spec fn ascending(faces: Seq<usize>) -> bool {
    forall|i: int, j: int| 0 <= i < j < faces.len() ==> faces[i] <= faces[j]
}

/// The order in which a die keeps its faces.
pub open spec fn face_order() -> spec_fn(usize, usize) -> bool {
    |a: usize, b: usize| a <= b
}

/// The same faces, listed from the smallest to the largest.
pub open spec fn canonical(faces: Seq<usize>) -> Seq<usize> {
    faces.sort_by(face_order())
}

/// `canonical` keeps every face, with its multiplicity, and lists them in
/// ascending order.
pub proof fn lemma_canonical(faces: Seq<usize>)
    ensures
        canonical(faces).len() == faces.len(),
        canonical(faces).to_multiset() == faces.to_multiset(),
        ascending(canonical(faces)),
{
    broadcast use vstd::seq_lib::group_to_multiset_ensures;
    faces.lemma_sort_by_ensures(face_order());
    assert(canonical(faces).to_multiset().len() == faces.to_multiset().len());
    let listed = canonical(faces);
    assert forall|i: int, j: int| 0 <= i < j < listed.len() implies listed[i] <= listed[j] by {
        assert(face_order()(listed[i], listed[j]));
    }
}

/// An ascending list with the same faces as `faces` is `canonical(faces)`.
pub proof fn lemma_canonical_unique(faces: Seq<usize>, listed: Seq<usize>)
    requires
        ascending(listed),
        listed.to_multiset() == faces.to_multiset(),
    ensures
        listed == canonical(faces),
{
    lemma_canonical(faces);
    vstd::seq_lib::lemma_sorted_unique(listed, canonical(faces), face_order());
}

/// Exchanging two entries of a list keeps its faces.
proof fn lemma_exchange_keeps_faces(faces: Seq<usize>, i: int, j: int)
    requires
        0 <= i < faces.len(),
        0 <= j < faces.len(),
    ensures
        faces.update(i, faces[j]).update(j, faces[i]).to_multiset() == faces.to_multiset(),
{
    broadcast use vstd::multiset::group_multiset_axioms;
    let half = faces.update(i, faces[j]);
    let done = half.update(j, faces[i]);
    vstd::seq_lib::to_multiset_update(faces, i, faces[j]);
    vstd::seq_lib::to_multiset_update(half, j, faces[i]);
    let m = faces.to_multiset();
    assert(half.to_multiset() == m.insert(faces[j]).remove(faces[i]));
    assert(done.to_multiset() == half.to_multiset().insert(faces[i]).remove(half[j]));
    assert(m.count(faces[i]) > 0) by {
        vstd::seq_lib::to_multiset_contains(faces, faces[i]);
        assert(faces.contains(faces[i]));
    }
    assert(done.to_multiset() =~= m);
}

/// Sorts six faces into ascending order.
pub fn sort_faces(faces: [usize; 6]) -> (sorted: [usize; 6])
    ensures
        sorted@ == canonical(faces@),
{
    let mut a: [usize; 6] = faces;
    let mut i: usize = 1;
    while i < 6
        invariant
            1 <= i <= 6,
            a@.to_multiset() == faces@.to_multiset(),
            forall|p: int, q: int| 0 <= p < q < i ==> a@[p] <= a@[q],
        decreases 6 - i,
    {
        let mut j: usize = i;
        while j > 0 && a[j - 1] > a[j]
            invariant
                j <= i < 6,
                a@.to_multiset() == faces@.to_multiset(),
                forall|p: int, q: int| 0 <= p < q <= i && p != j && q != j ==> a@[p] <= a@[q],
                forall|q: int| j < q <= i ==> a@[j as int] <= a@[q],
            decreases j,
        {
            let ghost before = a@;
            let low: usize = a[j];
            let high: usize = a[j - 1];
            a[j - 1] = low;
            a[j] = high;
            proof {
                lemma_exchange_keeps_faces(before, j - 1, j as int);
                assert(a@ == before.update(j - 1, low).update(j as int, high));
            }
            j = j - 1;
        }
        i = i + 1;
    }
    proof {
        lemma_canonical_unique(faces@, a@);
    }
    a
}

/// A face value moved by `delta`, held within what a face can store: it
/// stops at zero on the way down and at `usize::MAX` on the way up.
pub open spec fn shifted(value: usize, delta: int) -> usize {
    if value + delta < 0 {
        0
    } else if value + delta > usize::MAX {
        usize::MAX
    } else {
        (value + delta) as usize
    }
}

/// The faces after the one at `index` is replaced by `value` and the die is
/// put back in ascending order.
pub open spec fn replaced(faces: Seq<usize>, index: int, value: usize) -> Seq<usize> {
    canonical(faces.update(index, value))
}

/// The faces after the one at `index` is moved by `delta`.
pub open spec fn adjusted(faces: Seq<usize>, index: int, delta: int) -> Seq<usize> {
    replaced(faces, index, shifted(faces[index], delta))
}

/// Replacing a face of a six-faced die leaves a six-faced die in ascending
/// order.
pub proof fn lemma_replaced_is_canonical(faces: Seq<usize>, index: int, value: usize)
    requires
        faces.len() == FACES,
        0 <= index < FACES,
    ensures
        replaced(faces, index, value).len() == FACES,
        ascending(replaced(faces, index, value)),
{
    lemma_canonical(faces.update(index, value));
}

/// An ascending list is its own canonical arrangement.
pub proof fn lemma_canonical_of_ascending(faces: Seq<usize>)
    requires
        ascending(faces),
    ensures
        canonical(faces) == faces,
{
    lemma_canonical_unique(faces, faces);
}

/// One adjustment: the position of the face and the amount it moves by.
pub struct Adjustment {
    pub index: int,
    pub delta: int,
}

/// The faces after a series of adjustments, made one after the other.
pub open spec fn adjusted_all(faces: Seq<usize>, steps: Seq<Adjustment>) -> Seq<usize>
    decreases steps.len(),
{
    if steps.len() == 0 {
        faces
    } else {
        adjusted_all(adjusted(faces, steps[0].index, steps[0].delta), steps.drop_first())
    }
}

/// Whatever series of adjustments a die goes through, it keeps six faces in
/// ascending order, and no face ever falls below zero.
pub proof fn lemma_faces_stay_in_range(faces: Seq<usize>, steps: Seq<Adjustment>)
    requires
        faces.len() == FACES,
        forall|k: int| 0 <= k < steps.len() ==> 0 <= (#[trigger] steps[k]).index < FACES,
    ensures
        adjusted_all(faces, steps).len() == FACES,
        steps.len() > 0 ==> ascending(adjusted_all(faces, steps)),
        forall|i: int| 0 <= i < FACES ==> adjusted_all(faces, steps)[i] >= 0,
    decreases steps.len(),
{
    if steps.len() > 0 {
        let first = steps[0];
        let next = adjusted(faces, first.index, first.delta);
        lemma_replaced_is_canonical(faces, first.index, shifted(faces[first.index], first.delta));
        let rest = steps.drop_first();
        assert forall|k: int| 0 <= k < rest.len() implies 0 <= (#[trigger] rest[k]).index < FACES by {
            assert(rest[k] == steps[k + 1]);
        }
        lemma_faces_stay_in_range(next, rest);
    }
}

/// Exchanging a face of one die with a face of another, and exchanging the
/// faces at the same two positions once more, gives both dice back as they
/// were, provided the first exchange left the two faces at those positions.
/// (Each die is put back in ascending order after an exchange, which can move
/// the face it received to another position.)
pub proof fn lemma_double_swap(a: Seq<usize>, b: Seq<usize>, i: int, j: int)
    requires
        a.len() == FACES,
        b.len() == FACES,
        ascending(a),
        ascending(b),
        0 <= i < FACES,
        0 <= j < FACES,
        replaced(a, i, b[j])[i] == b[j],
        replaced(b, j, a[i])[j] == a[i],
    ensures
        ({
            let a_once = replaced(a, i, b[j]);
            let b_once = replaced(b, j, a[i]);
            &&& replaced(a_once, i, b_once[j]) == a
            &&& replaced(b_once, j, a_once[i]) == b
            &&& replaced(a_once, i, b_once[j]).to_multiset() == a.to_multiset()
            &&& replaced(b_once, j, a_once[i]).to_multiset() == b.to_multiset()
        }),
{
    let a_once = replaced(a, i, b[j]);
    let b_once = replaced(b, j, a[i]);
    lemma_canonical(a.update(i, b[j]));
    lemma_canonical(b.update(j, a[i]));
    lemma_restore(a, i, b[j], a_once);
    lemma_restore(b, j, a[i], b_once);
}

/// The proviso of `lemma_double_swap` leaves out no pair of dice that the
/// double exchange restores: where both dice come back as they were, the
/// first exchange had left the two faces at the chosen positions.
pub proof fn lemma_double_swap_converse(a: Seq<usize>, b: Seq<usize>, i: int, j: int)
    requires
        a.len() == FACES,
        b.len() == FACES,
        ascending(a),
        ascending(b),
        0 <= i < FACES,
        0 <= j < FACES,
        replaced(replaced(a, i, b[j]), i, replaced(b, j, a[i])[j]) == a,
    ensures
        replaced(a, i, b[j])[i] == b[j],
        replaced(b, j, a[i])[j] == a[i],
{
    broadcast use vstd::multiset::group_multiset_axioms;
    let a_once = replaced(a, i, b[j]);
    let b_once = replaced(b, j, a[i]);
    if a[i] == b[j] {
        assert(a.update(i, b[j]) =~= a);
        assert(b.update(j, a[i]) =~= b);
        lemma_canonical_of_ascending(a);
        lemma_canonical_of_ascending(b);
    } else {
        lemma_canonical(a.update(i, b[j]));
        lemma_canonical(b.update(j, a[i]));
        lemma_canonical(a_once.update(i, b_once[j]));
        vstd::seq_lib::to_multiset_update(a, i, b[j]);
        vstd::seq_lib::to_multiset_update(b, j, a[i]);
        vstd::seq_lib::to_multiset_update(a_once, i, b_once[j]);
        let m = a.to_multiset();
        let once = a_once.to_multiset();
        assert(once == m.insert(b[j]).remove(a[i]));
        assert(m == once.insert(b_once[j]).remove(a_once[i]));
        assert(m.count(a[i]) > 0) by {
            vstd::seq_lib::to_multiset_contains(a, a[i]);
            assert(a.contains(a[i]));
        }
        assert(once.count(a_once[i]) > 0) by {
            vstd::seq_lib::to_multiset_contains(a_once, a_once[i]);
            assert(a_once.contains(a_once[i]));
        }
        assert(once.count(a[i]) == m.count(a[i]) - 1);
        assert(once.count(b[j]) == m.count(b[j]) + 1);
        if a_once[i] != b[j] {
            assert(m.count(b[j]) >= once.count(b[j]));
        }
        if b_once[j] != a[i] {
            assert(m.count(a[i]) <= once.count(a[i]));
        }
    }
}

/// Putting the former face back where the new one sits restores the list.
proof fn lemma_restore(faces: Seq<usize>, index: int, value: usize, once: Seq<usize>)
    requires
        ascending(faces),
        0 <= index < faces.len(),
        once.len() == faces.len(),
        once.to_multiset() == faces.update(index, value).to_multiset(),
        once[index] == value,
    ensures
        replaced(once, index, faces[index]) == faces,
{
    broadcast use vstd::multiset::group_multiset_axioms;
    let former = faces[index];
    let back = once.update(index, former);
    vstd::seq_lib::to_multiset_update(faces, index, value);
    vstd::seq_lib::to_multiset_update(once, index, former);
    let m = faces.to_multiset();
    assert(m.count(former) > 0) by {
        vstd::seq_lib::to_multiset_contains(faces, former);
        assert(faces.contains(faces[index]));
    }
    assert(back.to_multiset() =~= m);
    lemma_canonical_unique(back, faces);
}

/// Moves a face value by `delta`, saturating at both ends.
pub fn shift(value: usize, delta: isize) -> (moved: usize)
    ensures
        moved == shifted(value, delta as int),
{
    if delta >= 0 {
        value.saturating_add(delta as usize)
    } else {
        let below: usize = (-(delta + 1)) as usize;
        value.saturating_sub(below).saturating_sub(1)
    }
}

/// A die with six faces, kept in ascending order. Equal values may occur
/// more than once; a value that occurs twice is rolled twice as often.
#[derive(Clone, Copy, Debug, PartialEq, Eq, PartialOrd, Ord, Hash)]
pub struct Die {
    sides: [usize; 6],
}

impl View for Die {
    type V = Seq<usize>;

    closed spec fn view(&self) -> Seq<usize> {
        self.sides@
    }
}

impl Die {
    /// Six faces in ascending order. This holds of every die.
    #[verifier::type_invariant]
    pub open spec fn wf(&self) -> bool {
        self@.len() == FACES && ascending(self@)
    }

    /// A die with the given faces, put in ascending order.
    pub fn new(faces: [usize; 6]) -> (die: Die)
        ensures
            die.wf(),
            die@ == canonical(faces@),
    {
        proof {
            lemma_canonical(faces@);
        }
        Die { sides: sort_faces(faces) }
    }

    /// The six faces, in ascending order.
    pub fn faces(&self) -> (faces: [usize; 6])
        ensures
            faces@ == self@,
    {
        self.sides
    }

    /// The face at `index`.
    pub fn face(&self, index: usize) -> (value: usize)
        requires
            index < FACES,
        ensures
            value == self@[index as int],
    {
        self.sides[index]
    }

    /// Rolls the die: each of the six positions is as likely as any other.
    /// Whatever the draw, the value is one of the faces.
    pub fn roll(&self) -> (value: usize)
        ensures
            exists|i: int| 0 <= i < FACES && value == self@[i],
    {
        let index: usize = random_index(FACES);
        self.face(index)
    }

    /// Replaces the face at `face_index` by `value` and puts the die back in
    /// ascending order.
    pub fn replace(&mut self, face_index: usize, value: usize)
        requires
            face_index < FACES,
        ensures
            final(self).wf(),
            final(self)@ == replaced(old(self)@, face_index as int, value),
    {
        let mut sides: [usize; 6] = self.sides;
        sides[face_index] = value;
        proof {
            lemma_replaced_is_canonical(self@, face_index as int, value);
        }
        self.sides = sort_faces(sides);
    }

    /// Moves the face at `face_index` by `delta`, never below zero, and puts
    /// the die back in ascending order.
    pub fn adjust(&mut self, face_index: usize, delta: isize)
        requires
            face_index < FACES,
        ensures
            final(self).wf(),
            final(self)@ == adjusted(old(self)@, face_index as int, delta as int),
            forall|i: int| 0 <= i < FACES ==> final(self)@[i] >= 0,
    {
        let value: usize = shift(self.face(face_index), delta);
        self.replace(face_index, value);
    }

    /// Exchanges the face at `own_index` of this die with the face at
    /// `other_index` of `other`; each die is put back in ascending order.
    pub fn swap_face_with(&mut self, other: &mut Die, own_index: usize, other_index: usize)
        requires
            own_index < FACES,
            other_index < FACES,
        ensures
            final(self).wf(),
            final(other).wf(),
            final(self)@ == replaced(old(self)@, own_index as int, old(other)@[other_index as int]),
            final(other)@ == replaced(old(other)@, other_index as int, old(self)@[own_index as int]),
    {
        let mine: usize = self.face(own_index);
        let theirs: usize = other.face(other_index);
        self.replace(own_index, theirs);
        other.replace(other_index, mine);
    }
}

} // verus!
