//! Setting up a player: reading six face values from a line of text and
//! checking them against the rule for a starting die.

use crate::die::{canonical, Die};
use vstd::prelude::*;

verus! {

/// What the faces of a starting die add up to.
pub const INITIAL_DICE_SUM: usize = 18;

/// Whether `c` is white space in the sense of Unicode, as
/// `char::is_whitespace` tells it.
pub uninterp spec fn is_space(c: char) -> bool;

/// Whether `c` is in one of the Unicode number categories, as
/// `char::is_numeric` tells it.
pub uninterp spec fn is_numeral(c: char) -> bool;

/// Calls `char::is_whitespace`. Trusted: the result is the standard
/// library's classification of `c`, which depends on `c` alone.
#[verifier::external_body]
fn whitespace(c: char) -> (yes: bool)
    ensures
        yes == is_space(c),
{
    c.is_whitespace()
}

/// Calls `char::is_numeric`. Trusted: the result is the standard library's
/// classification of `c`, which depends on `c` alone.
#[verifier::external_body]
fn numeric(c: char) -> (yes: bool)
    ensures
        yes == is_numeral(c),
{
    c.is_numeric()
}

/// What a character of a line of face values counts as.
#[derive(Clone, Copy, Debug, PartialEq, Eq, Structural)]
pub enum Mark {
    /// White space: it separates values.
    Space,
    /// One of the digits `0` to `9`, with its value.
    Digit(u8),
    /// A numeric character that is not one of the ten digits: a value that
    /// holds one cannot be read.
    Numeral,
    /// Anything else: it is passed over.
    Other,
}

/// The mark of a character, given how it is classified.
pub open spec fn mark_of(c: char, space: bool, numeral: bool) -> Mark {
    if space {
        Mark::Space
    } else if !numeral {
        Mark::Other
    } else if '0' <= c && c <= '9' {
        Mark::Digit((c as u32 - '0' as u32) as u8)
    } else {
        Mark::Numeral
    }
}

/// The marks of the characters of a line.
pub open spec fn marks_of(line: Seq<char>) -> Seq<Mark> {
    line.map_values(|c: char| mark_of(c, is_space(c), is_numeral(c)))
}

/// The mark of a character, given how it is classified.
pub fn mark(c: char, space: bool, numeral: bool) -> (m: Mark)
    ensures
        m == mark_of(c, space, numeral),
        m matches Mark::Digit(d) ==> d <= 9,
{
    if space {
        Mark::Space
    } else if !numeral {
        Mark::Other
    } else if '0' <= c && c <= '9' {
        Mark::Digit((c as u32 - '0' as u32) as u8)
    } else {
        Mark::Numeral
    }
}

/// The length of the word a list of marks begins with: the marks before
/// the first space.
pub open spec fn word_len(marks: Seq<Mark>) -> nat
    decreases marks.len(),
{
    if marks.len() == 0 || marks[0] == Mark::Space {
        0
    } else {
        1 + word_len(marks.drop_first())
    }
}

/// A word is no longer than the list it begins, and is not empty unless the
/// list is empty or begins with a space.
pub proof fn lemma_word_bounds(marks: Seq<Mark>)
    ensures
        word_len(marks) <= marks.len(),
        marks.len() > 0 && marks[0] != Mark::Space ==> word_len(marks) >= 1,
    decreases marks.len(),
{
    if marks.len() > 0 && marks[0] != Mark::Space {
        lemma_word_bounds(marks.drop_first());
    }
}

/// The digits of a word, in order, passing over what is not numeric.
pub open spec fn digits(word: Seq<Mark>) -> Seq<nat>
    decreases word.len(),
{
    if word.len() == 0 {
        seq![]
    } else {
        match word.last() {
            Mark::Digit(d) => digits(word.drop_last()).push(d as nat),
            _ => digits(word.drop_last()),
        }
    }
}

/// Whether a word holds a numeric character that is not a digit.
pub open spec fn spoiled(word: Seq<Mark>) -> bool {
    exists|i: int| 0 <= i < word.len() && word[i] == Mark::Numeral
}

/// The number that a row of digits writes in base ten.
pub open spec fn decimal(row: Seq<nat>) -> nat
    decreases row.len(),
{
    if row.len() == 0 {
        0
    } else {
        decimal(row.drop_last()) * 10 + row.last()
    }
}

/// The value a word stands for, if it stands for one: its digits, read in
/// base ten. A word without digits, a word with a numeric character other
/// than a digit, and a number too large to store stand for nothing.
pub open spec fn word_value(word: Seq<Mark>) -> Option<usize> {
    if digits(word).len() == 0 || spoiled(word) || decimal(digits(word)) > usize::MAX {
        None
    } else {
        Some(decimal(digits(word)) as usize)
    }
}

/// The values that a list of marks stands for: those of its words, in
/// order, leaving out the words that stand for nothing.
pub open spec fn values_of(marks: Seq<Mark>) -> Seq<usize>
    decreases marks.len(),
{
    if marks.len() == 0 {
        seq![]
    } else if marks[0] == Mark::Space {
        values_of(marks.drop_first())
    } else {
        let n = word_len(marks);
        proof {
            lemma_word_bounds(marks);
        }
        let rest = values_of(marks.skip(n as int));
        match word_value(marks.take(n as int)) {
            Some(value) => seq![value] + rest,
            None => rest,
        }
    }
}

/// A word is at least one mark long and ends before the first space.
proof fn lemma_word_len(marks: Seq<Mark>, n: int)
    requires
        0 <= n <= marks.len(),
        forall|i: int| 0 <= i < n ==> marks[i] != Mark::Space,
        n == marks.len() || marks[n] == Mark::Space,
    ensures
        word_len(marks) == n,
    decreases marks.len(),
{
    if n > 0 {
        let rest = marks.drop_first();
        assert forall|i: int| 0 <= i < n - 1 implies rest[i] != Mark::Space by {
            assert(rest[i] == marks[i + 1]);
        }
        lemma_word_len(rest, n - 1);
    }
}

/// The values that a list of marks stands for.
pub fn read_values(marks: &Vec<Mark>) -> (values: Vec<usize>)
    ensures
        values@ == values_of(marks@),
{
    let mut values: Vec<usize> = Vec::new();
    let mut at: usize = 0;
    proof {
        assert(marks@.skip(0) =~= marks@);
        assert(values@ + values_of(marks@) =~= values_of(marks@));
    }
    while at < marks.len()
        invariant
            at <= marks.len(),
            values_of(marks@) == values@ + values_of(marks@.skip(at as int)),
        decreases marks.len() - at,
    {
        let ghost rest = marks@.skip(at as int);
        if marks[at] == Mark::Space {
            assert(rest.drop_first() =~= marks@.skip(at + 1));
            at = at + 1;
        } else {
            let start: usize = at;
            let mut any: bool = false;
            let mut bad: bool = false;
            let mut large: bool = false;
            let mut total: usize = 0;
            assert(marks@.subrange(start as int, at as int) =~= Seq::<Mark>::empty());
            while at < marks.len() && marks[at] != Mark::Space
                invariant
                    start <= at <= marks.len(),
                            forall|i: int| start <= i < at ==> marks@[i] != Mark::Space,
                    any == (digits(marks@.subrange(start as int, at as int)).len() > 0),
                    bad == spoiled(marks@.subrange(start as int, at as int)),
                    large == (decimal(digits(marks@.subrange(start as int, at as int))) > usize::MAX),
                    !large ==> total == decimal(digits(marks@.subrange(start as int, at as int))),
                decreases marks.len() - at,
            {
                let ghost word = marks@.subrange(start as int, at as int);
                let ghost longer = marks@.subrange(start as int, at + 1);
                proof {
                    assert(longer.drop_last() =~= word);
                    assert(longer.last() == marks@[at as int]);
                    if spoiled(word) {
                        let i = choose|i: int| 0 <= i < word.len() && word[i] == Mark::Numeral;
                        assert(longer[i] == Mark::Numeral);
                    }
                    if spoiled(longer) {
                        let i = choose|i: int| 0 <= i < longer.len() && longer[i] == Mark::Numeral;
                        if i < word.len() {
                            assert(word[i] == Mark::Numeral);
                        }
                    }
                }
                match marks[at] {
                    Mark::Digit(d) => {
                        any = true;
                        proof {
                            assert(digits(longer) == digits(word).push(d as nat));
                            assert(digits(longer).drop_last() =~= digits(word));
                        }
                        if !large {
                            if total > (usize::MAX - d as usize) / 10 {
                                large = true;
                            } else {
                                total = total * 10 + d as usize;
                            }
                        }
                    },
                    Mark::Numeral => {
                        bad = true;
                        assert(longer[at - start] == Mark::Numeral);
                    },
                    _ => {},
                }
                at = at + 1;
            }
            proof {
                let word = marks@.subrange(start as int, at as int);
                let from = marks@.skip(start as int);
                assert forall|i: int| 0 <= i < at - start implies from[i] != Mark::Space by {
                    assert(from[i] == marks@[start + i]);
                }
                lemma_word_len(from, at - start);
                assert(from.take(at - start) =~= word);
                assert(from.skip(at - start) =~= marks@.skip(at as int));
            }
            let ghost earlier = values@;
            if any && !bad && !large {
                values.push(total);
                assert(values@ + values_of(marks@.skip(at as int)) =~= earlier + (seq![total]
                    + values_of(marks@.skip(at as int))));
            }
        }
    }
    assert(marks@.skip(at as int) =~= Seq::<Mark>::empty());
    assert(values@ + Seq::<usize>::empty() =~= values@);
    values
}

/// Reads the face values written on a line: the line is cut at white space
/// and each word gives the number that its digits write, other characters
/// passed over. Words that give no number are left out.
pub fn parse_faces(line: &str) -> (faces: Vec<usize>)
    ensures
        faces@ == values_of(marks_of(line@)),
{
    let mut marks: Vec<Mark> = Vec::new();
    for c in chars: line.chars()
        invariant
            chars.seq() == line@,
            marks@.len() == chars.index(),
            forall|i: int| 0 <= i < marks@.len() ==> marks@[i] == marks_of(line@)[i],
    {
        marks.push(mark(c, whitespace(c), numeric(c)));
    }
    assert(marks@ =~= marks_of(line@));
    read_values(&marks)
}

/// The sum of a list of face values.
pub open spec fn sum_of(faces: Seq<usize>) -> nat
    decreases faces.len(),
{
    if faces.len() == 0 {
        0
    } else {
        sum_of(faces.drop_last()) + faces.last() as nat
    }
}

/// Why a list of face values cannot be a starting die.
#[derive(Clone, Copy, Debug, PartialEq, Eq, Structural)]
pub enum SetupError {
    /// There are six values, but they add up to `sum`, not to 18.
    WrongSum { sum: u128 },
    /// The values add up to 18, but there are `count` of them, not six.
    WrongCount { count: usize },
    /// There are `count` values, not six, and they add up to `sum`, not to 18.
    WrongCountAndSum { count: usize, sum: u128 },
    /// There are six values that add up to 18, but one of them is zero.
    ZeroFace,
}

/// What is wrong with a list of face values as a starting die, if anything:
/// a starting die has six faces, all positive, that add up to 18.
pub open spec fn fault(faces: Seq<usize>) -> Option<SetupError> {
    let count = faces.len();
    let sum = sum_of(faces);
    if count != 6 && sum != INITIAL_DICE_SUM {
        Some(SetupError::WrongCountAndSum { count: count as usize, sum: sum as u128 })
    } else if sum != INITIAL_DICE_SUM {
        Some(SetupError::WrongSum { sum: sum as u128 })
    } else if count != 6 {
        Some(SetupError::WrongCount { count: count as usize })
    } else if exists|i: int| 0 <= i < faces.len() && faces[i] == 0 {
        Some(SetupError::ZeroFace)
    } else {
        None
    }
}

/// Makes a starting die of the face values, or says what is wrong with them.
pub fn starting_die(faces: &Vec<usize>) -> (made: Result<Die, SetupError>)
    ensures
        match made {
            Ok(die) => fault(faces@) is None && die@ == canonical(faces@),
            Err(error) => fault(faces@) == Some(error),
        },
{
    let count: usize = faces.len();
    let mut sum: u128 = 0;
    let mut zero: bool = false;
    let mut at: usize = 0;
    while at < count
        invariant
            count == faces@.len(),
            at <= count,
            sum == sum_of(faces@.take(at as int)),
            sum <= at * 0xFFFF_FFFF_FFFF_FFFF,
            zero == exists|i: int| 0 <= i < at && faces@[i] == 0,
        decreases count - at,
    {
        proof {
            let upto = faces@.take(at + 1);
            assert(upto.drop_last() =~= faces@.take(at as int));
            assert(upto.last() == faces@[at as int]);
        }
        sum = sum + faces[at] as u128;
        if faces[at] == 0 {
            zero = true;
        }
        at = at + 1;
    }
    assert(faces@.take(at as int) =~= faces@);
    if count != 6 && sum != INITIAL_DICE_SUM as u128 {
        Err(SetupError::WrongCountAndSum { count, sum })
    } else if sum != INITIAL_DICE_SUM as u128 {
        Err(SetupError::WrongSum { sum })
    } else if count != 6 {
        Err(SetupError::WrongCount { count })
    } else if zero {
        Err(SetupError::ZeroFace)
    } else {
        let sides: [usize; 6] = [faces[0], faces[1], faces[2], faces[3], faces[4], faces[5]];
        assert(sides@ =~= faces@);
        Ok(Die::new(sides))
    }
}

/// Reads the face values on a line and makes a starting die of them, or
/// says what is wrong with them.
pub fn starting_die_from_line(line: &str) -> (made: Result<Die, SetupError>)
    ensures
        match made {
            Ok(die) => fault(values_of(marks_of(line@))) is None && die@ == canonical(
                values_of(marks_of(line@)),
            ),
            Err(error) => fault(values_of(marks_of(line@))) == Some(error),
        },
{
    let faces: Vec<usize> = parse_faces(line);
    starting_die(&faces)
}

} // verus!
