use vstd::prelude::*;

use crate::number::{decimal_value, parse_decimal, within_limit, DecimalError, UNITS_PER_MM};

verus! {

/// How coordinates in a move are read.
#[derive(Clone, Copy, Debug, PartialEq, Eq, Structural)]
pub enum Positioning {
    Absolute,
    Relative,
}

/// Why a program was refused.
#[derive(Clone, Copy, Debug, PartialEq, Eq, Structural)]
pub enum ErrorKind {
    /// A recognized parameter letter carries text that is no decimal number.
    MalformedParameter,
    /// An arc move has no centre that can be resolved.
    DegenerateArc,
    /// The program deposits no material.
    NoDepositedMaterial,
    /// A number on the line, a resolved coordinate or extrusion, or an arc
    /// centre lies beyond `LIMIT`.
    OutOfRange,
}

/// The parameters of a move, in units; `None` where the line omits the letter.
#[derive(Clone, Copy, Debug, PartialEq, Eq, Structural)]
pub struct Params {
    pub x: Option<i64>,
    pub y: Option<i64>,
    pub z: Option<i64>,
    pub e: Option<i64>,
    pub i: Option<i64>,
    pub j: Option<i64>,
    pub r: Option<i64>,
}

/// One line of a toolpath program.
#[derive(Clone, Copy, Debug, PartialEq, Eq, Structural)]
pub enum Command {
    /// `G0` or `G1`.
    Linear(Params),
    /// `G2` (clockwise) or `G3` (counter-clockwise).
    Arc { params: Params, clockwise: bool },
    /// `G90` or `G91`.
    SetPositioning(Positioning),
    /// A blank line, a comment, or a code that deposits nothing.
    Unrecognized,
}

pub open spec fn is_space(b: u8) -> bool {
    b == 32u8 || b == 9u8 || b == 13u8 || b == 10u8
}

pub open spec fn is_letter(b: u8) -> bool {
    65 <= b <= 90
}

pub open spec fn upper(b: u8) -> u8 {
    if 97 <= b <= 122 {
        (b - 32) as u8
    } else {
        b
    }
}

/// The line from here on, upper-cased, without whitespace and comments: `;`
/// ends the line, `(` opens a comment that `)` closes.
pub open spec fn cleaned_from(line: Seq<u8>, in_comment: bool) -> Seq<u8>
    decreases line.len(),
{
    if line.len() == 0 {
        Seq::empty()
    } else {
        let b = line[0];
        let rest = line.drop_first();
        if in_comment {
            cleaned_from(rest, b != 41u8)
        } else if b == 59u8 {
            Seq::empty()
        } else if b == 40u8 {
            cleaned_from(rest, true)
        } else if is_space(b) {
            cleaned_from(rest, false)
        } else {
            seq![upper(b)] + cleaned_from(rest, false)
        }
    }
}

pub open spec fn cleaned(line: Seq<u8>) -> Seq<u8> {
    cleaned_from(line, false)
}

/// Spans `(start, end)` of the words of `c`: each starts at a letter and runs
/// to the next letter. Text before the first letter belongs to no word.
pub open spec fn word_spans(c: Seq<u8>) -> Seq<(usize, usize)>
    decreases c.len(),
{
    if c.len() == 0 {
        Seq::empty()
    } else {
        let w = word_spans(c.drop_last());
        let n = c.len();
        if is_letter(c.last()) {
            w.push(((n - 1) as usize, n as usize))
        } else if w.len() == 0 {
            w
        } else {
            w.update(w.len() - 1, (w.last().0, n as usize))
        }
    }
}

/// What one word says: its number, or why it holds none.
pub open spec fn word_value(c: Seq<u8>, w: (usize, usize)) -> Result<Option<i64>, ErrorKind> {
    match decimal_value(c.subrange(w.0 + 1, w.1 as int)) {
        None => Err(ErrorKind::MalformedParameter),
        Some(v) => if within_limit(v) {
            Ok(Some(v as i64))
        } else {
            Err(ErrorKind::OutOfRange)
        },
    }
}

/// The value of `letter` over the words `spans`. Every word with that letter
/// must hold a number within range (the first that does not gives the error);
/// the last of them counts.
pub open spec fn field_in(c: Seq<u8>, spans: Seq<(usize, usize)>, letter: u8) -> Result<
    Option<i64>,
    ErrorKind,
>
    decreases spans.len(),
{
    if spans.len() == 0 {
        Ok(None)
    } else {
        let prev = field_in(c, spans.drop_last(), letter);
        if c[spans.last().0 as int] != letter || prev is Err {
            prev
        } else {
            word_value(c, spans.last())
        }
    }
}

/// The value of `letter` on the cleaned line `c`.
pub open spec fn field(c: Seq<u8>, letter: u8) -> Result<Option<i64>, ErrorKind> {
    field_in(c, word_spans(c), letter)
}

/// The parameters of a move on the cleaned line `c`, or the error of the first
/// letter, in the order X Y Z E I J R F, that has one; `F` is checked and dropped.
pub open spec fn params_of(c: Seq<u8>) -> Result<Params, ErrorKind> {
    if field(c, 88u8) is Err {
        Err(field(c, 88u8)->Err_0)
    } else if field(c, 89u8) is Err {
        Err(field(c, 89u8)->Err_0)
    } else if field(c, 90u8) is Err {
        Err(field(c, 90u8)->Err_0)
    } else if field(c, 69u8) is Err {
        Err(field(c, 69u8)->Err_0)
    } else if field(c, 73u8) is Err {
        Err(field(c, 73u8)->Err_0)
    } else if field(c, 74u8) is Err {
        Err(field(c, 74u8)->Err_0)
    } else if field(c, 82u8) is Err {
        Err(field(c, 82u8)->Err_0)
    } else if field(c, 70u8) is Err {
        Err(field(c, 70u8)->Err_0)
    } else {
        Ok(
            Params {
                x: field(c, 88u8)->Ok_0,
                y: field(c, 89u8)->Ok_0,
                z: field(c, 90u8)->Ok_0,
                e: field(c, 69u8)->Ok_0,
                i: field(c, 73u8)->Ok_0,
                j: field(c, 74u8)->Ok_0,
                r: field(c, 82u8)->Ok_0,
            },
        )
    }
}

/// The code of the cleaned line `c`: the number of its first word, where that
/// word is a `G` followed by a number within range.
pub open spec fn code_of(c: Seq<u8>) -> Option<i64> {
    let spans = word_spans(c);
    if spans.len() > 0 && c[spans[0].0 as int] == 71u8 {
        match word_value(c, spans[0]) {
            Ok(Some(g)) => Some(g),
            _ => None,
        }
    } else {
        None
    }
}

/// What a line means: a line that opens with a `G` word picks the command by
/// its number; any other line (an `M` code, a `G` without a number, text
/// before the first `G`) is unrecognized and its words are not read.
pub open spec fn command_of(line: Seq<u8>) -> Result<Command, ErrorKind> {
    let c = cleaned(line);
    let u = UNITS_PER_MM as i64;
    match code_of(c) {
        None => Ok(Command::Unrecognized),
        Some(g) => if g == 0 || g == u {
            match params_of(c) {
                Ok(p) => Ok(Command::Linear(p)),
                Err(k) => Err(k),
            }
        } else if g == 2 * u || g == 3 * u {
            match params_of(c) {
                Ok(p) => Ok(Command::Arc { params: p, clockwise: g == 2 * u }),
                Err(k) => Err(k),
            }
        } else if g == 90 * u || g == 91 * u {
            match params_of(c) {
                Ok(_) => Ok(
                    Command::SetPositioning(
                        if g == 90 * u {
                            Positioning::Absolute
                        } else {
                            Positioning::Relative
                        },
                    ),
                ),
                Err(k) => Err(k),
            }
        } else {
            Ok(Command::Unrecognized)
        },
    }
}

fn clean(line: &[u8]) -> (c: Vec<u8>)
    ensures
        c@ == cleaned(line@),
{
    let mut out: Vec<u8> = Vec::new();
    let mut in_comment = false;
    let n = line.len();
    let mut i: usize = 0;
    assert(line@.subrange(0, n as int) =~= line@);
    assert(out@ + cleaned(line@) =~= cleaned(line@));
    while i < n
        invariant
            i <= n,
            n == line@.len(),
            out@ + cleaned_from(line@.subrange(i as int, n as int), in_comment) == cleaned(line@),
        decreases n - i,
    {
        let b = line[i];
        let ghost rest = line@.subrange(i + 1, n as int);
        assert(line@.subrange(i as int, n as int).drop_first() =~= rest);
        if in_comment {
            in_comment = b != 41u8;
        } else if b == 59u8 {
            assert(out@ + Seq::<u8>::empty() =~= out@);
            return out;
        } else if b == 40u8 {
            in_comment = true;
        } else if !(b == 32u8 || b == 9u8 || b == 13u8 || b == 10u8) {
            let ub = if 97 <= b && b <= 122 {
                b - 32
            } else {
                b
            };
            assert(out@.push(ub) + cleaned_from(rest, false) =~= out@ + (seq![ub] + cleaned_from(
                rest,
                false,
            )));
            out.push(ub);
        }
        i = i + 1;
    }
    assert(line@.subrange(n as int, n as int) =~= Seq::<u8>::empty());
    assert(out@ + Seq::<u8>::empty() =~= out@);
    out
}

fn split_words(c: &Vec<u8>) -> (spans: Vec<(usize, usize)>)
    ensures
        spans@ == word_spans(c@),
{
    let mut spans: Vec<(usize, usize)> = Vec::new();
    let n = c.len();
    let mut i: usize = 0;
    while i < n
        invariant
            i <= n,
            n == c@.len(),
            spans@ == word_spans(c@.subrange(0, i as int)),
        decreases n - i,
    {
        assert(c@.subrange(0, i + 1).drop_last() =~= c@.subrange(0, i as int));
        let b = c[i];
        if 65 <= b && b <= 90 {
            spans.push((i, i + 1));
        } else if spans.len() > 0 {
            let last = spans.len() - 1;
            let s = spans[last].0;
            spans.set(last, (s, i + 1));
        }
        i = i + 1;
    }
    assert(c@.subrange(0, n as int) =~= c@);
    spans
}

proof fn lemma_spans_bounded(c: Seq<u8>)
    requires
        c.len() <= usize::MAX,
    ensures
        forall|k: int|
            0 <= k < word_spans(c).len() ==> (#[trigger] word_spans(c)[k]).0 < word_spans(c)[k].1
                <= c.len(),
    decreases c.len(),
{
    if c.len() > 0 {
        lemma_spans_bounded(c.drop_last());
        let w = word_spans(c.drop_last());
        assert forall|k: int| 0 <= k < word_spans(c).len() implies (#[trigger] word_spans(
            c,
        )[k]).0 < word_spans(c)[k].1 <= c.len() by {
            if k < w.len() {
                assert(w[k].0 < w[k].1 <= c.len() - 1);
            }
            if w.len() > 0 {
                assert(w[w.len() - 1].0 < w[w.len() - 1].1);
            }
        }
    }
}

fn find_field(c: &Vec<u8>, spans: &Vec<(usize, usize)>, letter: u8) -> (r: Result<
    Option<i64>,
    ErrorKind,
>)
    requires
        spans@ == word_spans(c@),
    ensures
        r == field(c@, letter),
{
    let n = c.len();
    assert(n == c@.len());
    proof {
        lemma_spans_bounded(c@);
    }
    let mut res: Result<Option<i64>, ErrorKind> = Ok(None);
    let mut k: usize = 0;
    while k < spans.len()
        invariant
            k <= spans@.len(),
            spans@ == word_spans(c@),
            forall|m: int|
                0 <= m < spans@.len() ==> (#[trigger] spans@[m]).0 < spans@[m].1 <= c@.len(),
            res == field_in(c@, spans@.subrange(0, k as int), letter),
        decreases spans.len() - k,
    {
        assert(spans@.subrange(0, k + 1).drop_last() =~= spans@.subrange(0, k as int));
        assert(spans@.subrange(0, k + 1).last() == spans@[k as int]);
        let (s, e) = spans[k];
        if c[s] == letter && res.is_ok() {
            let text = vstd::slice::slice_subrange(c.as_slice(), s + 1, e);
            res = match parse_decimal(text) {
                Ok(v) => Ok(Some(v)),
                Err(DecimalError::Malformed) => Err(ErrorKind::MalformedParameter),
                Err(DecimalError::TooLarge) => Err(ErrorKind::OutOfRange),
            };
        }
        k = k + 1;
    }
    assert(spans@.subrange(0, spans@.len() as int) =~= spans@);
    res
}

fn parse_params(c: &Vec<u8>, spans: &Vec<(usize, usize)>) -> (r: Result<Params, ErrorKind>)
    requires
        spans@ == word_spans(c@),
    ensures
        r == params_of(c@),
{
    let x = match find_field(c, spans, 88u8) {
        Ok(v) => v,
        Err(k) => {
            return Err(k);
        },
    };
    let y = match find_field(c, spans, 89u8) {
        Ok(v) => v,
        Err(k) => {
            return Err(k);
        },
    };
    let z = match find_field(c, spans, 90u8) {
        Ok(v) => v,
        Err(k) => {
            return Err(k);
        },
    };
    let e = match find_field(c, spans, 69u8) {
        Ok(v) => v,
        Err(k) => {
            return Err(k);
        },
    };
    let i = match find_field(c, spans, 73u8) {
        Ok(v) => v,
        Err(k) => {
            return Err(k);
        },
    };
    let j = match find_field(c, spans, 74u8) {
        Ok(v) => v,
        Err(k) => {
            return Err(k);
        },
    };
    let r = match find_field(c, spans, 82u8) {
        Ok(v) => v,
        Err(k) => {
            return Err(k);
        },
    };
    let _f = match find_field(c, spans, 70u8) {
        Ok(v) => v,
        Err(k) => {
            return Err(k);
        },
    };
    Ok(Params { x, y, z, e, i, j, r })
}

fn find_code(c: &Vec<u8>, spans: &Vec<(usize, usize)>) -> (r: Option<i64>)
    requires
        spans@ == word_spans(c@),
    ensures
        r == code_of(c@),
{
    let n = c.len();
    assert(n == c@.len());
    proof {
        lemma_spans_bounded(c@);
    }
    if spans.len() == 0 {
        return None;
    }
    let (s, e) = spans[0];
    assert(spans@[0] == (s, e));
    if c[s] != 71u8 {
        return None;
    }
    let text = vstd::slice::slice_subrange(c.as_slice(), s + 1, e);
    match parse_decimal(text) {
        Ok(g) => Some(g),
        Err(_) => None,
    }
}

/// Reads one line of a toolpath program.
pub fn parse_line(line: &[u8]) -> (r: Result<Command, ErrorKind>)
    ensures
        r == command_of(line@),
{
    let c = clean(line);
    let spans = split_words(&c);
    let u = UNITS_PER_MM;
    match find_code(&c, &spans) {
        None => Ok(Command::Unrecognized),
        Some(g) => {
            if g == 0 || g == u {
                match parse_params(&c, &spans) {
                    Ok(p) => Ok(Command::Linear(p)),
                    Err(k) => Err(k),
                }
            } else if g == 2 * u || g == 3 * u {
                match parse_params(&c, &spans) {
                    Ok(p) => Ok(Command::Arc { params: p, clockwise: g == 2 * u }),
                    Err(k) => Err(k),
                }
            } else if g == 90 * u || g == 91 * u {
                match parse_params(&c, &spans) {
                    Ok(_) => Ok(
                        Command::SetPositioning(
                            if g == 90 * u {
                                Positioning::Absolute
                            } else {
                                Positioning::Relative
                            },
                        ),
                    ),
                    Err(k) => Err(k),
                }
            } else {
                Ok(Command::Unrecognized)
            }
        },
    }
}

proof fn lemma_bad_word_fails_field(c: Seq<u8>, spans: Seq<(usize, usize)>, letter: u8, m: int)
    requires
        0 <= m < spans.len(),
        c[spans[m].0 as int] == letter,
        word_value(c, spans[m]) is Err,
    ensures
        field_in(c, spans, letter) is Err,
    decreases spans.len(),
{
    if m < spans.len() - 1 {
        assert(spans.drop_last()[m] == spans[m]);
        lemma_bad_word_fails_field(c, spans.drop_last(), letter, m);
    } else {
        assert(spans.last() == spans[m]);
    }
}

/// A move line (`G0` to `G3`) on which the `m`-th word has a recognized
/// parameter letter and holds no number within range fails as a whole,
/// whatever other words of that letter say: the parameter is never dropped.
pub proof fn lemma_bad_parameter_fails_move(line: Seq<u8>, m: int)
    requires
        code_of(cleaned(line)) matches Some(g) && (g == 0 || g == UNITS_PER_MM || g == 2
            * UNITS_PER_MM || g == 3 * UNITS_PER_MM),
        0 <= m < word_spans(cleaned(line)).len(),
        ({
            let c = cleaned(line);
            let letter = c[word_spans(c)[m].0 as int];
            letter == 88u8 || letter == 89u8 || letter == 90u8 || letter == 69u8 || letter
                == 73u8 || letter == 74u8 || letter == 82u8 || letter == 70u8
        }),
        word_value(cleaned(line), word_spans(cleaned(line))[m]) is Err,
    ensures
        command_of(line) is Err,
{
    let c = cleaned(line);
    lemma_bad_word_fails_field(c, word_spans(c), c[word_spans(c)[m].0 as int], m);
}

} // verus!
