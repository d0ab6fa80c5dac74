//! The paths by which a template names a value of its data, such as
//! `$.customer.name` or `$.items[0].price`.
//!
//! A path starts with `$.`; what follows is cut at every dot into
//! segments. A segment without an opening bracket names a field. In a
//! segment with one, what stands before the first opening bracket names a
//! field, unless it is empty, and what stands between that bracket and the
//! last character of the segment is an index.

use vstd::prelude::*;
use crate::strings::{chars_of, string_of};
use crate::template::{digits_value, lemma_digits_grow, lemma_digits_stay_bad, number_of};

verus! {

/// One step on the way to a value: into a field of an object, or to an
/// item of an array.
#[derive(Debug, Clone, PartialEq, Eq)]
pub enum PathStep {
    Field(String),
    Index(usize),
}

/// The mathematical value of a [`PathStep`].
pub enum Step {
    Field(Seq<char>),
    Index(int),
}

impl View for PathStep {
    type V = Step;

    open spec fn view(&self) -> Step {
        match self {
            PathStep::Field(name) => Step::Field(name@),
            PathStep::Index(i) => Step::Index(*i as int),
        }
    }
}

/// The steps as mathematical values.
pub open spec fn steps_view(steps: Seq<PathStep>) -> Seq<Step> {
    Seq::new(steps.len(), |i: int| steps[i]@)
}

/// The position of the first opening bracket at or after `from`; the
/// length of the segment where there is none.
pub open spec fn bracket_at(seg: Seq<char>, from: int) -> int
    decreases seg.len() - from,
{
    if from < 0 || from >= seg.len() {
        seg.len() as int
    } else if seg[from] == '[' {
        from
    } else {
        bracket_at(seg, from + 1)
    }
}

/// The steps that one segment of a path stands for; `None` where the
/// segment has an opening bracket and no index behind it.
pub open spec fn segment_steps(seg: Seq<char>) -> Option<Seq<Step>> {
    let b = bracket_at(seg, 0);
    if b >= seg.len() {
        Some(seq![Step::Field(seg)])
    } else if seg.len() < b + 2 {
        None
    } else {
        match number_of(seg.subrange(b + 1, seg.len() - 1), false) {
            Some(i) => if i > usize::MAX {
                None
            } else if b == 0 {
                Some(seq![Step::Index(i)])
            } else {
                Some(seq![Step::Field(seg.take(b)), Step::Index(i)])
            },
            None => None,
        }
    }
}

/// Steps followed by more steps, where both are there.
pub open spec fn followed_by(first: Option<Seq<Step>>, more: Option<Seq<Step>>) -> Option<Seq<Step>> {
    match (first, more) {
        (Some(a), Some(b)) => Some(a + b),
        _ => None,
    }
}

/// The steps of the segments that end in `s`, and the segment that is
/// still open at the end of `s`.
pub open spec fn scan_path(s: Seq<char>) -> (Option<Seq<Step>>, Seq<char>)
    decreases s.len(),
{
    if s.len() == 0 {
        (Some(Seq::empty()), Seq::empty())
    } else {
        let (done, open) = scan_path(s.drop_last());
        if s.last() == '.' {
            (followed_by(done, segment_steps(open)), Seq::empty())
        } else {
            (done, open.push(s.last()))
        }
    }
}

/// The steps that a path stands for; `None` where it does not start with
/// `$.` or one of its segments stands for none.
pub open spec fn path_steps(path: Seq<char>) -> Option<Seq<Step>> {
    if path.len() >= 2 && path[0] == '$' && path[1] == '.' {
        let (done, open) = scan_path(path.skip(2));
        followed_by(done, segment_steps(open))
    } else {
        None
    }
}

/// The position of the first opening bracket of a segment.
fn find_bracket(seg: &Vec<char>) -> (b: usize)
    ensures
        b == bracket_at(seg@, 0),
        b <= seg@.len(),
{
    let mut i: usize = 0;
    while i < seg.len()
        invariant
            i <= seg.len(),
            bracket_at(seg@, 0) == bracket_at(seg@, i as int),
        decreases seg.len() - i,
    {
        if seg[i] == '[' {
            return i;
        }
        i += 1;
    }
    i
}

/// The characters of `seg` from `from` up to `to`.
fn part(seg: &Vec<char>, from: usize, to: usize) -> (r: Vec<char>)
    requires
        from <= to <= seg@.len(),
    ensures
        r@ == seg@.subrange(from as int, to as int),
{
    let mut r: Vec<char> = Vec::new();
    let mut i: usize = from;
    while i < to
        invariant
            from <= i <= to,
            to <= seg@.len(),
            r@ == seg@.subrange(from as int, i as int),
        decreases to - i,
    {
        r.push(seg[i]);
        proof {
            assert(seg@.subrange(from as int, i + 1) =~= seg@.subrange(from as int, i as int).push(
                seg@[i as int],
            ));
        }
        i += 1;
    }
    r
}

/// Reads an index: digits, with a plus sign before them or without.
pub fn read_index(digits: &Vec<char>) -> (r: Option<usize>)
    ensures
        match r {
            Some(i) => number_of(digits@, false) == Some(i as int),
            None => match number_of(digits@, false) {
                Some(v) => v > usize::MAX,
                None => true,
            },
        },
{
    if digits.len() == 0 {
        return None;
    }
    let from: usize = if digits[0] == '+' {
        1
    } else {
        0
    };
    if from == digits.len() {
        return None;
    }
    let ghost rest = digits@.subrange(from as int, digits@.len() as int);
    proof {
        if from == 0 {
            assert(rest =~= digits@);
        }
    }
    let mut value: usize = 0;
    let mut i: usize = from;
    while i < digits.len()
        invariant
            from <= i <= digits.len(),
            from < digits.len(),
            from <= 1,
            from == 1 <==> digits@[0] == '+',
            from == 0 ==> rest == digits@,
            rest == digits@.subrange(from as int, digits@.len() as int),
            value == digits_value(rest, i - from),
        decreases digits.len() - i,
    {
        let c = digits[i];
        assert(rest[i - from] == c);
        if c < '0' || c > '9' {
            proof {
                lemma_digits_stay_bad(rest, i - from + 1, rest.len() as int);
            }
            return None;
        }
        let d: usize = (c as u32 - '0' as u32) as usize;
        if value > (usize::MAX - d) / 10 {
            proof {
                assert(value * 10 + d > usize::MAX) by (nonlinear_arith)
                    requires
                        value > (usize::MAX - d) / 10,
                        0 <= d <= 9,
                ;
                lemma_digits_grow(rest, i - from + 1, rest.len() as int);
            }
            return None;
        }
        assert(value * 10 + d <= usize::MAX) by (nonlinear_arith)
            requires
                value <= (usize::MAX - d) / 10,
                0 <= d <= 9,
        ;
        value = value * 10 + d;
        i += 1;
    }
    Some(value)
}

/// Adds the steps of one segment to `out`; `false`, and nothing added,
/// where the segment stands for none.
fn push_segment(seg: &Vec<char>, out: &mut Vec<PathStep>) -> (ok: bool)
    ensures
        match segment_steps(seg@) {
            Some(steps) => ok && steps_view(final(out)@) == steps_view(old(out)@) + steps,
            None => !ok && final(out)@ == old(out)@,
        },
{
    let ghost before = steps_view(out@);
    let b = find_bracket(seg);
    if b >= seg.len() {
        out.push(PathStep::Field(string_of(seg)));
        assert(steps_view(out@) =~= before + seq![Step::Field(seg@)]);
        return true;
    }
    if seg.len() - b < 2 {
        return false;
    }
    let digits = part(seg, b + 1, seg.len() - 1);
    match read_index(&digits) {
        Some(i) => {
            if b > 0 {
                let field = part(seg, 0, b);
                out.push(PathStep::Field(string_of(&field)));
                out.push(PathStep::Index(i));
                assert(seg@.take(b as int) =~= seg@.subrange(0, b as int));
                assert(steps_view(out@) =~= before + seq![
                    Step::Field(seg@.take(b as int)),
                    Step::Index(i as int),
                ]);
            } else {
                out.push(PathStep::Index(i));
                assert(steps_view(out@) =~= before + seq![Step::Index(i as int)]);
            }
            true
        },
        None => false,
    }
}

/// Reads a path into its steps.
pub fn binding_steps(path: &str) -> (r: Option<Vec<PathStep>>)
    ensures
        match r {
            Some(steps) => path_steps(path@) == Some(steps_view(steps@)),
            None => path_steps(path@) is None,
        },
{
    let chars = chars_of(path);
    if chars.len() < 2 || chars[0] != '$' || chars[1] != '.' {
        return None;
    }
    let ghost rest = chars@.skip(2);
    let mut steps: Vec<PathStep> = Vec::new();
    let mut ok = true;
    let mut open: Vec<char> = Vec::new();
    let mut i: usize = 2;
    assert(rest.take(0) =~= Seq::<char>::empty());
    assert(steps_view(steps@) =~= Seq::<Step>::empty());
    while i < chars.len()
        invariant
            2 <= i <= chars.len(),
            rest == chars@.skip(2),
            open@ == scan_path(rest.take(i - 2)).1,
            ok ==> scan_path(rest.take(i - 2)).0 == Some(steps_view(steps@)),
            !ok ==> scan_path(rest.take(i - 2)).0 is None,
        decreases chars.len() - i,
    {
        let c = chars[i];
        proof {
            let longer = rest.take(i - 1);
            assert(longer.drop_last() =~= rest.take(i - 2));
            assert(longer.last() == c);
        }
        if c == '.' {
            if ok {
                ok = push_segment(&open, &mut steps);
            }
            open = Vec::new();
        } else {
            open.push(c);
        }
        i += 1;
    }
    assert(rest.take(chars.len() - 2) =~= rest);
    if ok && push_segment(&open, &mut steps) {
        Some(steps)
    } else {
        None
    }
}

} // verus!
