use vstd::prelude::*;

use crate::command::{command_of, parse_line, Command, ErrorKind, Params, Positioning};
use crate::interpreter::{in_range, step_spec, target_of, Interpreter, Point, Segment};
use vstd::string::StringSliceAdditionalSpecFns;

verus! {

/// Why a program was refused, with the 1-based number of the offending line
/// (0 for a fault of the whole program).
#[derive(Clone, Copy, Debug, PartialEq, Eq, Structural)]
pub struct ProgramError {
    pub line: usize,
    pub kind: ErrorKind,
}

/// The lines of a text, split at each newline; a text ending in a newline has
/// an empty last line.
pub open spec fn split_lines(b: Seq<u8>) -> Seq<Seq<u8>>
    decreases b.len(),
{
    if b.len() == 0 {
        seq![Seq::empty()]
    } else {
        let s = split_lines(b.drop_last());
        if b.last() == 10u8 {
            s.push(Seq::empty())
        } else {
            s.update(s.len() - 1, s.last().push(b.last()))
        }
    }
}

/// What one line does to the state.
pub open spec fn line_outcome(line: Seq<u8>, s: Interpreter) -> Result<
    (Interpreter, Option<Segment>),
    ErrorKind,
> {
    match command_of(line) {
        Err(k) => Err(k),
        Ok(c) => step_spec(s, c),
    }
}

/// The state after `lines` and the segments they lay down, or the first error.
pub open spec fn run(lines: Seq<Seq<u8>>, s0: Interpreter) -> Result<
    (Interpreter, Seq<Segment>),
    ProgramError,
>
    decreases lines.len(),
{
    if lines.len() == 0 {
        Ok((s0, Seq::empty()))
    } else {
        match run(lines.drop_last(), s0) {
            Err(e) => Err(e),
            Ok((s, segs)) => match line_outcome(lines.last(), s) {
                Err(k) => Err(ProgramError { line: lines.len() as usize, kind: k }),
                Ok((s2, seg)) => Ok(
                    (
                        s2,
                        match seg {
                            Some(g) => segs.push(g),
                            None => segs,
                        },
                    ),
                ),
            },
        }
    }
}

/// Total filament fed along `segs`, in units.
pub open spec fn total_extrusion_of(segs: Seq<Segment>) -> int
    decreases segs.len(),
{
    if segs.len() == 0 {
        0
    } else {
        total_extrusion_of(segs.drop_last()) + segs.last().extrusion_of()
    }
}

proof fn lemma_split_nonempty(b: Seq<u8>)
    ensures
        split_lines(b).len() >= 1,
    decreases b.len(),
{
    if b.len() > 0 {
        lemma_split_nonempty(b.drop_last());
    }
}

proof fn lemma_empty_line(s: Interpreter)
    ensures
        line_outcome(Seq::empty(), s) == Ok::<(Interpreter, Option<Segment>), ErrorKind>((s, None)),
{
    let c = crate::command::cleaned(Seq::<u8>::empty());
    assert(c == Seq::<u8>::empty());
    assert(crate::command::word_spans(c) == Seq::<(usize, usize)>::empty());
}

/// Runs a whole program from `start`. Lines are read in order; the first line
/// that fails ends the run, and its number and error are returned.
pub fn interpret(text: &str, start: Interpreter) -> (r: Result<Vec<Segment>, ProgramError>)
    requires
        start.wf(),
    ensures
        match run(split_lines(text.spec_bytes()), start) {
            Ok((_, segs)) => r matches Ok(v) && v@ == segs,
            Err(e) => r == Err::<Vec<Segment>, ProgramError>(e),
        },
{
    let b = text.as_bytes();
    let n = b.len();
    let mut state = start;
    let mut segs: Vec<Segment> = Vec::new();
    let mut failed: Option<ProgramError> = None;
    let mut line_start: usize = 0;
    let mut count: usize = 0;
    let ghost mut done: Seq<Seq<u8>> = Seq::empty();
    let mut i: usize = 0;
    assert(b@.subrange(0, 0) =~= Seq::<u8>::empty());
    assert(split_lines(Seq::<u8>::empty()) =~= done.push(Seq::<u8>::empty()));
    while i < n
        invariant
            line_start <= i <= n,
            n == b@.len(),
            count == done.len(),
            count <= line_start,
            split_lines(b@.subrange(0, i as int)) == done.push(
                b@.subrange(line_start as int, i as int),
            ),
            state.wf(),
            match failed {
                Some(e) => run(done, start) == Err::<(Interpreter, Seq<Segment>), ProgramError>(e),
                None => run(done, start) == Ok::<(Interpreter, Seq<Segment>), ProgramError>(
                    (state, segs@),
                ),
            },
        decreases n - i,
    {
        let ghost cur = b@.subrange(line_start as int, i as int);
        assert(b@.subrange(0, i + 1).drop_last() =~= b@.subrange(0, i as int));
        if b[i] == 10u8 {
            if failed.is_none() {
                let line = vstd::slice::slice_subrange(b, line_start, i);
                assert(done.push(cur).drop_last() =~= done);
                let outcome = match parse_line(line) {
                    Err(k) => Err(k),
                    Ok(c) => state.step(&c),
                };
                match outcome {
                    Err(k) => {
                        failed = Some(ProgramError { line: count + 1, kind: k });
                    },
                    Ok(seg) => {
                        if let Some(g) = seg {
                            segs.push(g);
                        }
                    },
                }
            } else {
                assert(done.push(cur).drop_last() =~= done);
            }
            proof {
                done = done.push(cur);
            }
            count = count + 1;
            line_start = i + 1;
            assert(b@.subrange(line_start as int, i + 1) =~= Seq::<u8>::empty());
        } else {
            proof {
                lemma_split_nonempty(b@.subrange(0, i as int));
            }
            assert(b@.subrange(line_start as int, i + 1) =~= cur.push(b@[i as int]));
            assert(done.push(cur).update(done.len() as int, cur.push(b@[i as int])) =~= done.push(
                cur.push(b@[i as int]),
            ));
        }
        i = i + 1;
    }
    assert(b@.subrange(0, n as int) =~= b@);
    let ghost cur = b@.subrange(line_start as int, n as int);
    assert(done.push(cur).drop_last() =~= done);
    if failed.is_none() {
        if line_start < n {
            let line = vstd::slice::slice_subrange(b, line_start, n);
            let outcome = match parse_line(line) {
                Err(k) => Err(k),
                Ok(c) => state.step(&c),
            };
            match outcome {
                Err(k) => {
                    failed = Some(ProgramError { line: count + 1, kind: k });
                },
                Ok(seg) => {
                    if let Some(g) = seg {
                        segs.push(g);
                    }
                },
            }
        } else {
            assert(cur =~= Seq::<u8>::empty());
            proof {
                lemma_empty_line(state);
            }
        }
    }
    match failed {
        Some(e) => Err(e),
        None => Ok(segs),
    }
}

/// The segments that a program lays down from `start`. A program that lays
/// down none fails with `NoDepositedMaterial` (line 0).
pub fn deposition_from(text: &str, start: Interpreter) -> (r: Result<Vec<Segment>, ProgramError>)
    requires
        start.wf(),
    ensures
        match run(split_lines(text.spec_bytes()), start) {
            Ok((_, segs)) => if segs.len() == 0 {
                r == Err::<Vec<Segment>, ProgramError>(
                    ProgramError { line: 0, kind: ErrorKind::NoDepositedMaterial },
                )
            } else {
                r matches Ok(v) && v@ == segs
            },
            Err(e) => r == Err::<Vec<Segment>, ProgramError>(e),
        },
        r matches Ok(v) ==> total_extrusion_of(v@) > 0,
{
    proof {
        let lines = split_lines(text.spec_bytes());
        lemma_run_segments_deposit(lines, start);
        if let Ok((_, segs)) = run(lines, start) {
            lemma_total_extrusion_positive(segs);
        }
    }
    match interpret(text, start) {
        Err(e) => Err(e),
        Ok(segs) => {
            if segs.len() == 0 {
                Err(ProgramError { line: 0, kind: ErrorKind::NoDepositedMaterial })
            } else {
                Ok(segs)
            }
        },
    }
}

/// The segments that a program lays down from the origin in absolute mode,
/// with `G90`/`G91` governing extrusion too. A program that lays down none
/// fails with `NoDepositedMaterial` (line 0).
pub fn deposition(text: &str) -> (r: Result<Vec<Segment>, ProgramError>)
    ensures
        match run(
            split_lines(text.spec_bytes()),
            Interpreter::initial(true, Positioning::Absolute),
        ) {
            Ok((_, segs)) => if segs.len() == 0 {
                r == Err::<Vec<Segment>, ProgramError>(
                    ProgramError { line: 0, kind: ErrorKind::NoDepositedMaterial },
                )
            } else {
                r matches Ok(v) && v@ == segs
            },
            Err(e) => r == Err::<Vec<Segment>, ProgramError>(e),
        },
        r matches Ok(v) ==> total_extrusion_of(v@) > 0,
{
    deposition_from(text, Interpreter::new())
}

/// Total filament fed along `segs`, in units; the deposited mass is this
/// times the filament's cross-section and density.
pub fn total_extrusion(segs: &Vec<Segment>) -> (r: i128)
    ensures
        r == total_extrusion_of(segs@),
{
    let mut total: i128 = 0;
    let mut k: usize = 0;
    while k < segs.len()
        invariant
            k <= segs@.len(),
            total == total_extrusion_of(segs@.subrange(0, k as int)),
            -(k as int) * 0x8000_0000_0000_0000 <= total <= (k as int) * 0x8000_0000_0000_0000,
        decreases segs.len() - k,
    {
        assert(segs@.subrange(0, k + 1).drop_last() =~= segs@.subrange(0, k as int));
        assert((k + 1) * 0x8000_0000_0000_0000int <= 0x7fff_ffff_ffff_ffff_8000_0000_0000_0000)
            by (nonlinear_arith)
            requires
                k + 1 <= 0xffff_ffff_ffff_ffffint,
        ;
        total = total + segs[k].extrusion() as i128;
        k = k + 1;
    }
    assert(segs@.subrange(0, k as int) =~= segs@);
    total
}

proof fn lemma_total_remove(s: Seq<Segment>, k: int)
    requires
        0 <= k < s.len(),
    ensures
        total_extrusion_of(s) == total_extrusion_of(s.remove(k)) + s[k].extrusion_of(),
    decreases s.len(),
{
    if k == s.len() - 1 {
        assert(s.remove(k) =~= s.drop_last());
    } else {
        lemma_total_remove(s.drop_last(), k);
        assert(s.remove(k).drop_last() =~= s.drop_last().remove(k));
        assert(s.remove(k).last() == s.last());
    }
}

/// Aggregation does not depend on order: two segment sequences that hold the
/// same segments, each as often, feed the same total filament, and so
/// deposit the same total mass.
pub proof fn lemma_total_extrusion_permutation(a: Seq<Segment>, b: Seq<Segment>)
    requires
        a.to_multiset() == b.to_multiset(),
    ensures
        total_extrusion_of(a) == total_extrusion_of(b),
    decreases a.len(),
{
    broadcast use vstd::seq_lib::group_to_multiset_ensures;

    if a.len() == 0 {
        assert(b.to_multiset().len() == 0);
    } else {
        let x = a.last();
        assert(a.drop_last().push(x) =~= a);
        assert(a.to_multiset().count(x) > 0);
        assert(b.contains(x));
        let k = choose|k: int| 0 <= k < b.len() && b[k] == x;
        lemma_total_remove(b, k);
        assert(b.remove(k).to_multiset() =~= a.drop_last().to_multiset());
        lemma_total_extrusion_permutation(a.drop_last(), b.remove(k));
    }
}

/// Every segment that a run lays down deposits material.
pub proof fn lemma_run_segments_deposit(lines: Seq<Seq<u8>>, s0: Interpreter)
    requires
        s0.wf(),
    ensures
        run(lines, s0) matches Ok((s, segs)) ==> s.wf() && forall|k: int|
            0 <= k < segs.len() ==> (#[trigger] segs[k]).wf(),
    decreases lines.len(),
{
    if lines.len() > 0 {
        lemma_run_segments_deposit(lines.drop_last(), s0);
        if let Ok((s, segs)) = run(lines.drop_last(), s0) {
            if let Ok((s2, seg)) = line_outcome(lines.last(), s) {
                if let Some(g) = seg {
                    assert(g.wf());
                    assert forall|k: int| 0 <= k < segs.push(g).len() implies (#[trigger] segs.push(
                        g,
                    )[k]).wf() by {
                        if k < segs.len() {
                            assert(segs.push(g)[k] == segs[k]);
                        }
                    }
                }
            }
        }
    }
}

/// Segments that each deposit material feed a positive total exactly when
/// there is at least one of them.
pub proof fn lemma_total_extrusion_positive(segs: Seq<Segment>)
    requires
        forall|k: int| 0 <= k < segs.len() ==> (#[trigger] segs[k]).wf(),
    ensures
        total_extrusion_of(segs) > 0 <==> segs.len() > 0,
        total_extrusion_of(segs) >= 0,
    decreases segs.len(),
{
    if segs.len() > 0 {
        assert(segs.last() == segs[segs.len() - 1]);
        lemma_total_extrusion_positive(segs.drop_last());
    }
}

/// From the start of a program, one straight move to `(l, 0, 0)` feeding `e`
/// lays down one line from the origin whose filament, and so whose mass over
/// the cross-section and density, is exactly `e`.
pub proof fn lemma_single_straight_move(
    extrusion_follows: bool,
    mode: Positioning,
    l: i64,
    e: i64,
)
    requires
        l != 0,
        e > 0,
        in_range(l as int),
        in_range(e as int),
    ensures
        ({
            let s = Interpreter::initial(extrusion_follows, mode);
            let p = Params { x: Some(l), y: None, z: None, e: Some(e), i: None, j: None, r: None };
            let line = Segment::Line {
                start: Point { x: 0, y: 0, z: 0 },
                end: Point { x: l, y: 0, z: 0 },
                extrusion: e,
            };
            step_spec(s, Command::Linear(p)) matches Ok((_, Some(g))) && g == line
                && total_extrusion_of(seq![line]) == e
        }),
{
    let line = Segment::Line {
        start: Point { x: 0, y: 0, z: 0 },
        end: Point { x: l, y: 0, z: 0 },
        extrusion: e,
    };
    assert(seq![line].drop_last() =~= Seq::<Segment>::empty());
    assert(seq![line].last() == line);
    assert(total_extrusion_of(Seq::<Segment>::empty()) == 0);
    assert(line.extrusion_of() == e);
    let s = Interpreter::initial(extrusion_follows, mode);
    let p = Params { x: Some(l), y: None, z: None, e: Some(e), i: None, j: None, r: None };
    assert(target_of(s, p) == Some((Point { x: l, y: 0, z: 0 }, e)));
}

/// All or nothing: when the lines before line `k` (1-based) run cleanly and
/// line `k` fails, the whole program fails at line `k` with that line's error,
/// whatever follows it.
pub proof fn lemma_first_error_decides(lines: Seq<Seq<u8>>, s0: Interpreter, k: int)
    requires
        1 <= k <= lines.len(),
        k <= usize::MAX,
        run(lines.subrange(0, k - 1), s0) is Ok,
        line_outcome(lines[k - 1], run(lines.subrange(0, k - 1), s0)->Ok_0.0) is Err,
    ensures
        run(lines, s0) == Err::<(Interpreter, Seq<Segment>), ProgramError>(
            ProgramError {
                line: k as usize,
                kind: line_outcome(lines[k - 1], run(lines.subrange(0, k - 1), s0)->Ok_0.0)->Err_0,
            },
        ),
    decreases lines.len(),
{
    if lines.len() == k {
        assert(lines.drop_last() =~= lines.subrange(0, k - 1));
    } else {
        let shorter = lines.drop_last();
        assert(shorter.subrange(0, k - 1) =~= lines.subrange(0, k - 1));
        assert(shorter[k - 1] == lines[k - 1]);
        lemma_first_error_decides(shorter, s0, k);
    }
}

} // verus!
