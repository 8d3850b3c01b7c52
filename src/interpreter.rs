use vstd::prelude::*;

use crate::command::{Command, ErrorKind, Params, Positioning};
use crate::number::LIMIT;

verus! {

/// A position in units (nanometres).
#[derive(Clone, Copy, Debug, PartialEq, Eq, Structural)]
pub struct Point {
    pub x: i64,
    pub y: i64,
    pub z: i64,
}

/// Where the centre of an arc lies.
#[derive(Clone, Copy, Debug, PartialEq, Eq, Structural)]
pub enum ArcCentre {
    /// The centre in the XY plane, from an `I`/`J` offset.
    At { x: i64, y: i64 },
    /// A signed radius `R`: the centre is on the side that `clockwise` and the
    /// sign pick (a negative radius asks for the longer of the two arcs).
    Radius(i64),
}

/// A piece of toolpath along which material is laid down.
#[derive(Clone, Copy, Debug, PartialEq, Eq, Structural)]
pub enum Segment {
    Line { start: Point, end: Point, extrusion: i64 },
    Arc {
        start: Point,
        end: Point,
        centre: ArcCentre,
        clockwise: bool,
        /// Start and end coincide in the XY plane: the arc is a whole turn.
        full_turn: bool,
        extrusion: i64,
    },
}

impl Segment {
    /// Filament fed along the segment, in units; always positive.
    pub open spec fn extrusion_of(self) -> int {
        match self {
            Segment::Line { extrusion, .. } => extrusion as int,
            Segment::Arc { extrusion, .. } => extrusion as int,
        }
    }

    /// Every segment deposits material.
    pub open spec fn wf(self) -> bool {
        self.extrusion_of() > 0
    }

    pub fn extrusion(&self) -> (r: i64)
        ensures
            r == self.extrusion_of(),
    {
        match self {
            Segment::Line { extrusion, .. } => *extrusion,
            Segment::Arc { extrusion, .. } => *extrusion,
        }
    }
}

pub open spec fn in_range(v: int) -> bool {
    -LIMIT <= v <= LIMIT
}

/// The modal state of a toolpath program.
#[derive(Clone, Copy, Debug, PartialEq, Eq, Structural)]
pub struct Interpreter {
    pub position: Point,
    /// Filament fed so far, in units.
    pub extrusion: i64,
    pub positioning: Positioning,
    pub extrusion_positioning: Positioning,
    /// Whether `G90`/`G91` set the extrusion axis's mode too.
    pub extrusion_follows: bool,
}

/// A coordinate after a move: an omitted axis keeps its value.
pub open spec fn resolve(cur: int, given: Option<i64>, mode: Positioning) -> int {
    match given {
        None => cur,
        Some(v) => match mode {
            Positioning::Absolute => v as int,
            Positioning::Relative => cur + v,
        },
    }
}

/// The target of a move, or `None` where a coordinate leaves the range.
pub open spec fn target_of(s: Interpreter, p: Params) -> Option<(Point, i64)> {
    let x = resolve(s.position.x as int, p.x, s.positioning);
    let y = resolve(s.position.y as int, p.y, s.positioning);
    let z = resolve(s.position.z as int, p.z, s.positioning);
    let e = resolve(s.extrusion as int, p.e, s.extrusion_positioning);
    if in_range(x) && in_range(y) && in_range(z) && in_range(e) {
        Some((Point { x: x as i64, y: y as i64, z: z as i64 }, e as i64))
    } else {
        None
    }
}

/// An `I` or `J` offset; an omitted one is zero.
pub open spec fn offset(o: Option<i64>) -> int {
    match o {
        Some(v) => v as int,
        None => 0,
    }
}

/// The centre of an arc from `a` to `b`. It cannot be resolved
/// (`DegenerateArc`) from a zero `I`/`J` offset, from no offset and no radius,
/// or from a radius that is zero, with coinciding ends, or shorter than half
/// the chord; an offset centre beyond `LIMIT` is `OutOfRange`.
pub open spec fn centre_of(a: Point, b: Point, p: Params) -> Result<ArcCentre, ErrorKind> {
    if p.i is Some || p.j is Some {
        let i = offset(p.i);
        let j = offset(p.j);
        if i == 0 && j == 0 {
            Err(ErrorKind::DegenerateArc)
        } else if !in_range(a.x + i) || !in_range(a.y + j) {
            Err(ErrorKind::OutOfRange)
        } else {
            Ok(ArcCentre::At { x: (a.x + i) as i64, y: (a.y + j) as i64 })
        }
    } else {
        match p.r {
            None => Err(ErrorKind::DegenerateArc),
            Some(r) => {
                let dx = b.x - a.x;
                let dy = b.y - a.y;
                if r == 0 || (dx == 0 && dy == 0) || dx * dx + dy * dy > 4 * r * r {
                    Err(ErrorKind::DegenerateArc)
                } else {
                    Ok(ArcCentre::Radius(r))
                }
            },
        }
    }
}

/// What one command does to the state, and the segment it lays down.
pub open spec fn step_spec(s: Interpreter, c: Command) -> Result<(Interpreter, Option<Segment>), ErrorKind> {
    match c {
        Command::Unrecognized => Ok((s, None)),
        Command::SetPositioning(m) => Ok(
            (
                Interpreter {
                    positioning: m,
                    extrusion_positioning: if s.extrusion_follows {
                        m
                    } else {
                        s.extrusion_positioning
                    },
                    ..s
                },
                None,
            ),
        ),
        Command::Linear(p) => match target_of(s, p) {
            None => Err(ErrorKind::OutOfRange),
            Some((t, e)) => Ok(
                (
                    Interpreter { position: t, extrusion: e, ..s },
                    if e > s.extrusion && t != s.position {
                        Some(
                            Segment::Line {
                                start: s.position,
                                end: t,
                                extrusion: (e - s.extrusion) as i64,
                            },
                        )
                    } else {
                        None
                    },
                ),
            ),
        },
        Command::Arc { params: p, clockwise } => match target_of(s, p) {
            None => Err(ErrorKind::OutOfRange),
            Some((t, e)) => match centre_of(s.position, t, p) {
                Err(k) => Err(k),
                Ok(centre) => Ok(
                    (
                        Interpreter { position: t, extrusion: e, ..s },
                        if e > s.extrusion {
                            Some(
                                Segment::Arc {
                                    start: s.position,
                                    end: t,
                                    centre,
                                    clockwise,
                                    full_turn: t.x == s.position.x && t.y == s.position.y,
                                    extrusion: (e - s.extrusion) as i64,
                                },
                            )
                        } else {
                            None
                        },
                    ),
                ),
            },
        },
    }
}

fn resolve_exec(cur: i64, given: Option<i64>, mode: Positioning) -> (r: Option<i64>)
    requires
        in_range(cur as int),
    ensures
        match r {
            Some(v) => in_range(resolve(cur as int, given, mode)) && v == resolve(
                cur as int,
                given,
                mode,
            ),
            None => !in_range(resolve(cur as int, given, mode)),
        },
{
    let v: i128 = match given {
        None => cur as i128,
        Some(v) => match mode {
            Positioning::Absolute => v as i128,
            Positioning::Relative => cur as i128 + v as i128,
        },
    };
    if -(LIMIT as i128) <= v && v <= LIMIT as i128 {
        Some(v as i64)
    } else {
        None
    }
}

fn resolve_centre(a: Point, b: Point, p: Params) -> (r: Result<ArcCentre, ErrorKind>)
    requires
        in_range(a.x as int),
        in_range(a.y as int),
        in_range(b.x as int),
        in_range(b.y as int),
    ensures
        r == centre_of(a, b, p),
{
    if p.i.is_some() || p.j.is_some() {
        let i: i64 = match p.i {
            Some(v) => v,
            None => 0,
        };
        let j: i64 = match p.j {
            Some(v) => v,
            None => 0,
        };
        let cx: i128 = a.x as i128 + i as i128;
        let cy: i128 = a.y as i128 + j as i128;
        let bound: i128 = LIMIT as i128;
        if i == 0 && j == 0 {
            Err(ErrorKind::DegenerateArc)
        } else if cx < -bound || cx > bound || cy < -bound || cy > bound {
            Err(ErrorKind::OutOfRange)
        } else {
            Ok(ArcCentre::At { x: cx as i64, y: cy as i64 })
        }
    } else {
        match p.r {
            None => Err(ErrorKind::DegenerateArc),
            Some(r) => {
                let dx = b.x as i128 - a.x as i128;
                let dy = b.y as i128 - a.y as i128;
                if r == 0 || (dx == 0 && dy == 0) {
                    return Err(ErrorKind::DegenerateArc);
                }
                assert(0 <= dx * dx <= 4 * LIMIT * LIMIT) by (nonlinear_arith)
                    requires
                        -2 * LIMIT <= dx <= 2 * LIMIT,
                ;
                assert(0 <= dy * dy <= 4 * LIMIT * LIMIT) by (nonlinear_arith)
                    requires
                        -2 * LIMIT <= dy <= 2 * LIMIT,
                ;
                assert(4 * LIMIT * LIMIT == 4_000_000_000_000_000_000_000_000_000_000);
                let chord_sq: i128 = dx * dx + dy * dy;
                let bound: i128 = 2 * LIMIT as i128;
                if r as i128 > bound || (r as i128) < -bound {
                    assert(chord_sq <= 4 * (r as int) * (r as int)) by (nonlinear_arith)
                        requires
                            chord_sq <= 8 * LIMIT * LIMIT,
                            r > 2 * LIMIT || r < -2 * LIMIT,
                            LIMIT > 0,
                    ;
                    Ok(ArcCentre::Radius(r))
                } else {
                    let rr: i128 = r as i128;
                    assert(0 <= rr * rr <= 4 * LIMIT * LIMIT) by (nonlinear_arith)
                        requires
                            -2 * LIMIT <= rr <= 2 * LIMIT,
                    ;
                    assert(16 * LIMIT * LIMIT == 16_000_000_000_000_000_000_000_000_000_000);
                    let sq: i128 = rr * rr;
                    assert(4 * sq == 4 * r * r) by (nonlinear_arith)
                        requires
                            sq == rr * rr,
                            rr == r,
                    ;
                    if chord_sq > 4 * sq {
                        Err(ErrorKind::DegenerateArc)
                    } else {
                        Ok(ArcCentre::Radius(r))
                    }
                }
            },
        }
    }
}

impl Interpreter {
    /// Coordinates and extrusion lie within `LIMIT`.
    pub open spec fn wf(self) -> bool {
        &&& in_range(self.position.x as int)
        &&& in_range(self.position.y as int)
        &&& in_range(self.position.z as int)
        &&& in_range(self.extrusion as int)
    }

    pub open spec fn initial(extrusion_follows: bool, extrusion_positioning: Positioning) -> Interpreter {
        Interpreter {
            position: Point { x: 0, y: 0, z: 0 },
            extrusion: 0,
            positioning: Positioning::Absolute,
            extrusion_positioning,
            extrusion_follows,
        }
    }

    /// At the origin, absolute positioning, and `G90`/`G91` govern extrusion too.
    pub fn new() -> (r: Interpreter)
        ensures
            r == Interpreter::initial(true, Positioning::Absolute),
            r.wf(),
    {
        Interpreter {
            position: Point { x: 0, y: 0, z: 0 },
            extrusion: 0,
            positioning: Positioning::Absolute,
            extrusion_positioning: Positioning::Absolute,
            extrusion_follows: true,
        }
    }

    /// At the origin, absolute positioning, with the extrusion axis held in
    /// `mode` whatever `G90`/`G91` say.
    pub fn with_extrusion_positioning(mode: Positioning) -> (r: Interpreter)
        ensures
            r == Interpreter::initial(false, mode),
            r.wf(),
    {
        Interpreter {
            position: Point { x: 0, y: 0, z: 0 },
            extrusion: 0,
            positioning: Positioning::Absolute,
            extrusion_positioning: mode,
            extrusion_follows: false,
        }
    }

    fn target(&self, p: &Params) -> (r: Option<(Point, i64)>)
        requires
            self.wf(),
        ensures
            r == target_of(*self, *p),
    {
        let x = resolve_exec(self.position.x, p.x, self.positioning);
        let y = resolve_exec(self.position.y, p.y, self.positioning);
        let z = resolve_exec(self.position.z, p.z, self.positioning);
        let e = resolve_exec(self.extrusion, p.e, self.extrusion_positioning);
        match (x, y, z, e) {
            (Some(x), Some(y), Some(z), Some(e)) => Some((Point { x, y, z }, e)),
            _ => None,
        }
    }

    /// Applies one command; on an error the state is left as it was.
    pub fn step(&mut self, c: &Command) -> (r: Result<Option<Segment>, ErrorKind>)
        requires
            old(self).wf(),
        ensures
            final(self).wf(),
            match step_spec(*old(self), *c) {
                Ok((s, seg)) => r == Ok::<Option<Segment>, ErrorKind>(seg) && *final(self) == s,
                Err(k) => r == Err::<Option<Segment>, ErrorKind>(k) && *final(self) == *old(self),
            },
    {
        match c {
            Command::Unrecognized => Ok(None),
            Command::SetPositioning(m) => {
                self.positioning = *m;
                if self.extrusion_follows {
                    self.extrusion_positioning = *m;
                }
                Ok(None)
            },
            Command::Linear(p) => match self.target(p) {
                None => Err(ErrorKind::OutOfRange),
                Some((t, e)) => {
                    let start = self.position;
                    let seg = if e > self.extrusion && !(t.x == start.x && t.y == start.y && t.z
                        == start.z) {
                        Some(Segment::Line { start, end: t, extrusion: e - self.extrusion })
                    } else {
                        None
                    };
                    self.position = t;
                    self.extrusion = e;
                    Ok(seg)
                },
            },
            Command::Arc { params: p, clockwise } => match self.target(p) {
                None => Err(ErrorKind::OutOfRange),
                Some((t, e)) => {
                    let start = self.position;
                    match resolve_centre(start, t, *p) {
                        Err(k) => Err(k),
                        Ok(centre) => {
                            let seg = if e > self.extrusion {
                                Some(
                                    Segment::Arc {
                                        start,
                                        end: t,
                                        centre,
                                        clockwise: *clockwise,
                                        full_turn: t.x == start.x && t.y == start.y,
                                        extrusion: e - self.extrusion,
                                    },
                                )
                            } else {
                                None
                            };
                            self.position = t;
                            self.extrusion = e;
                            Ok(seg)
                        },
                    }
                },
            },
        }
    }
}

/// A relative move by `(dx, dy, dz)` feeding `de`, followed by the move by the
/// exact negation, brings position and extrusion back to where they were.
pub proof fn lemma_relative_round_trip(s: Interpreter, dx: i64, dy: i64, dz: i64, de: i64)
    requires
        s.wf(),
        s.positioning == Positioning::Relative,
        s.extrusion_positioning == Positioning::Relative,
        in_range(s.position.x + dx),
        in_range(s.position.y + dy),
        in_range(s.position.z + dz),
        in_range(s.extrusion + de),
    ensures
        ({
            let there = Params {
                x: Some(dx),
                y: Some(dy),
                z: Some(dz),
                e: Some(de),
                i: None,
                j: None,
                r: None,
            };
            let back = Params {
                x: Some((-dx) as i64),
                y: Some((-dy) as i64),
                z: Some((-dz) as i64),
                e: Some((-de) as i64),
                i: None,
                j: None,
                r: None,
            };
            step_spec(s, Command::Linear(there)) matches Ok((s1, _)) && step_spec(
                s1,
                Command::Linear(back),
            ) matches Ok((s2, _)) && s2.position == s.position && s2.extrusion == s.extrusion
        }),
{
}

/// A relative travel move by `(dx, dy, dz)`, followed by the travel move by
/// the exact negation, lays down nothing and leaves the whole state as it was,
/// so every later command acts as if the pair had not been there.
pub proof fn lemma_relative_travel_round_trip(s: Interpreter, dx: i64, dy: i64, dz: i64)
    requires
        s.wf(),
        s.positioning == Positioning::Relative,
        in_range(s.position.x + dx),
        in_range(s.position.y + dy),
        in_range(s.position.z + dz),
    ensures
        ({
            let there = Params { x: Some(dx), y: Some(dy), z: Some(dz), e: None, i: None, j: None, r: None };
            let back = Params {
                x: Some((-dx) as i64),
                y: Some((-dy) as i64),
                z: Some((-dz) as i64),
                e: None,
                i: None,
                j: None,
                r: None,
            };
            step_spec(s, Command::Linear(there)) matches Ok((s1, None)) && step_spec(
                s1,
                Command::Linear(back),
            ) == Ok::<(Interpreter, Option<Segment>), ErrorKind>((s, None))
        }),
{
}

} // verus!
