use vstd::prelude::*;
use vstd::string::StringSliceAdditionalSpecFns;
use crate::color::Color;
use crate::fitness::{Parameter, Strength, Target, TargetDirection, UNIT};
use crate::number::{
    decimal_of, fits_i64, integer_of, is_negative, lemma_digits_nonneg, parse_fixed, parse_integer, read_digits,
};
use crate::stats::Stat;
use crate::words::{lemma_split_nonempty, same_bytes, split_words, views, words_of};

verus! {

/// Why a command line was not understood.
#[derive(Clone, Copy, Debug, PartialEq, Eq, Structural)]
pub enum ParseError {
    /// A word is missing.
    ExpectedString,
    /// The value to approximate is not a decimal number.
    ExpectedFloat,
    /// The first word is not `minimize`, `maximize` or `approximate`.
    ExpectedDirection,
    /// The statistic is not `mean`, `stddev`, `min` or `max`.
    ExpectedStat,
    /// The parameter is not `chroma`, `luminance`, `freedist` or `fixeddist`.
    ExpectedParameter,
    /// The color count is not a natural number.
    ExpectedInt,
    /// The color count is zero.
    CountTooSmall,
    /// The first word names no action.
    ActionNotRecognized,
}

impl ParseError {
    /// A description of the error for the operator.
    pub fn message(&self) -> &'static str {
        match self {
            ParseError::ExpectedString => "expected string",
            ParseError::ExpectedFloat => "expected float",
            ParseError::ExpectedDirection => "expected minimize, maximize or approximate",
            ParseError::ExpectedStat => "expected mean, stddev, min or max",
            ParseError::ExpectedParameter => "expected chroma, luminance, freedist or fixeddist",
            ParseError::ExpectedInt => "expected int",
            ParseError::CountTooSmall => "count must be at least 1",
            ParseError::ActionNotRecognized => "action not recognized",
        }
    }
}

/// A change to a running optimization.
#[derive(Debug, PartialEq)]
pub enum Action {
    SetFreeColorCount(usize),
    SetPresetColors(Vec<Color>),
    SetFixedColors(Vec<Color>),
    SetTarget(Target),
    RemoveTarget((Stat, Parameter)),
}

/// A simulated color vision deficiency for the preview.
#[derive(Clone, Copy, Debug, PartialEq, Eq, Structural)]
pub enum ColorFilter {
    Redshift,
    Deuter,
}

pub open spec fn kw_minimize() -> Seq<u8> {
    seq![109u8, 105u8, 110u8, 105u8, 109u8, 105u8, 122u8, 101u8]
}

pub open spec fn kw_maximize() -> Seq<u8> {
    seq![109u8, 97u8, 120u8, 105u8, 109u8, 105u8, 122u8, 101u8]
}

pub open spec fn kw_approximate() -> Seq<u8> {
    seq![97u8, 112u8, 112u8, 114u8, 111u8, 120u8, 105u8, 109u8, 97u8, 116u8, 101u8]
}

pub open spec fn kw_mean() -> Seq<u8> {
    seq![109u8, 101u8, 97u8, 110u8]
}

pub open spec fn kw_stddev() -> Seq<u8> {
    seq![115u8, 116u8, 100u8, 100u8, 101u8, 118u8]
}

pub open spec fn kw_min() -> Seq<u8> {
    seq![109u8, 105u8, 110u8]
}

pub open spec fn kw_max() -> Seq<u8> {
    seq![109u8, 97u8, 120u8]
}

pub open spec fn kw_chroma() -> Seq<u8> {
    seq![99u8, 104u8, 114u8, 111u8, 109u8, 97u8]
}

pub open spec fn kw_luminance() -> Seq<u8> {
    seq![108u8, 117u8, 109u8, 105u8, 110u8, 97u8, 110u8, 99u8, 101u8]
}

pub open spec fn kw_freedist() -> Seq<u8> {
    seq![102u8, 114u8, 101u8, 101u8, 100u8, 105u8, 115u8, 116u8]
}

pub open spec fn kw_fixeddist() -> Seq<u8> {
    seq![102u8, 105u8, 120u8, 101u8, 100u8, 100u8, 105u8, 115u8, 116u8]
}

pub open spec fn kw_target() -> Seq<u8> {
    seq![116u8, 97u8, 114u8, 103u8, 101u8, 116u8]
}

pub open spec fn kw_freecolorcount() -> Seq<u8> {
    seq![102u8, 114u8, 101u8, 101u8, 99u8, 111u8, 108u8, 111u8, 114u8, 99u8, 111u8, 117u8, 110u8, 116u8]
}

pub open spec fn kw_fg_color_count() -> Seq<u8> {
    seq![102u8, 103u8, 95u8, 99u8, 111u8, 108u8, 111u8, 114u8, 95u8, 99u8, 111u8, 117u8, 110u8, 116u8]
}

pub open spec fn stat_word(t: Seq<u8>) -> Option<Stat> {
    if t == kw_mean() {
        Some(Stat::Mean)
    } else if t == kw_stddev() {
        Some(Stat::StdDev)
    } else if t == kw_min() {
        Some(Stat::Min)
    } else if t == kw_max() {
        Some(Stat::Max)
    } else {
        None
    }
}

pub open spec fn parameter_word(t: Seq<u8>) -> Option<Parameter> {
    if t == kw_chroma() {
        Some(Parameter::Chroma)
    } else if t == kw_luminance() {
        Some(Parameter::Luminance)
    } else if t == kw_freedist() {
        Some(Parameter::FreeDistance)
    } else if t == kw_fixeddist() {
        Some(Parameter::FixedDistance)
    } else {
        None
    }
}

/// A decimal number in thousandths, where it fits in `i64`.
pub open spec fn fixed_of(t: Seq<u8>) -> Option<int> {
    match decimal_of(t) {
        Some(v) => if fits_i64(v) { Some(v) } else { None },
        None => None,
    }
}

/// An integer that fits in `i32`.
pub open spec fn exponent_of(t: Seq<u8>) -> Option<int> {
    match integer_of(t) {
        Some(v) => if i32::MIN <= v <= i32::MAX { Some(v) } else { None },
        None => None,
    }
}

/// A natural number without sign that fits in `usize`.
pub open spec fn count_of(t: Seq<u8>) -> Option<int> {
    match integer_of(t) {
        Some(v) => if !is_negative(t) && v <= usize::MAX { Some(v) } else { None },
        None => None,
    }
}

/// The direction that the words start with, and how many words it takes.
pub open spec fn direction_of(ts: Seq<Seq<u8>>) -> Result<(TargetDirection, int), ParseError> {
    if ts.len() == 0 {
        Err(ParseError::ExpectedString)
    } else if ts[0] == kw_minimize() {
        Ok((TargetDirection::Minimize, 1))
    } else if ts[0] == kw_maximize() {
        Ok((TargetDirection::Maximize, 1))
    } else if ts[0] == kw_approximate() {
        if ts.len() < 2 {
            Err(ParseError::ExpectedString)
        } else {
            match fixed_of(ts[1]) {
                Some(v) => Ok((TargetDirection::Approximate(v as i64), 2)),
                None => Err(ParseError::ExpectedFloat),
            }
        }
    } else {
        Err(ParseError::ExpectedDirection)
    }
}

/// The target that the words `<direction> <stat> <parameter> [<factor> [<exponent>]]`
/// describe. A factor or exponent that is missing or not a number is 1.
pub open spec fn target_of(ts: Seq<Seq<u8>>) -> Result<Target, ParseError> {
    match direction_of(ts) {
        Err(e) => Err(e),
        Ok((direction, k)) => if ts.len() <= k {
            Err(ParseError::ExpectedString)
        } else {
            match stat_word(ts[k]) {
                None => Err(ParseError::ExpectedStat),
                Some(stat) => if ts.len() <= k + 1 {
                    Err(ParseError::ExpectedString)
                } else {
                    match parameter_word(ts[k + 1]) {
                        None => Err(ParseError::ExpectedParameter),
                        Some(parameter) => {
                            let factor = if ts.len() > k + 2 {
                                match fixed_of(ts[k + 2]) {
                                    Some(f) => f,
                                    None => UNIT as int,
                                }
                            } else {
                                UNIT as int
                            };
                            let exponent = if ts.len() > k + 3 {
                                match exponent_of(ts[k + 3]) {
                                    Some(e) => e,
                                    None => 1,
                                }
                            } else {
                                1
                            };
                            Ok(
                                Target {
                                    direction,
                                    stat,
                                    parameter,
                                    strength: Strength { factor: factor as i64, exponent: exponent as i32 },
                                },
                            )
                        },
                    }
                },
            }
        },
    }
}

/// The action that the words describe: `target` followed by the words of a
/// target, or `freecolorcount <n>` (also written `fg_color_count <n>`) with `n >= 1`.
pub open spec fn action_of(ts: Seq<Seq<u8>>) -> Result<Action, ParseError> {
    if ts.len() >= 1 && ts[0] == kw_target() {
        match target_of(ts.drop_first()) {
            Ok(t) => Ok(Action::SetTarget(t)),
            Err(e) => Err(e),
        }
    } else if ts.len() >= 1 && (ts[0] == kw_freecolorcount() || ts[0] == kw_fg_color_count()) {
        if ts.len() < 2 {
            Err(ParseError::ExpectedString)
        } else {
            match count_of(ts[1]) {
                None => Err(ParseError::ExpectedInt),
                Some(c) => if c == 0 {
                    Err(ParseError::CountTooSmall)
                } else {
                    Ok(Action::SetFreeColorCount(c as usize))
                },
            }
        }
    } else {
        Err(ParseError::ActionNotRecognized)
    }
}

fn is_minimize(t: &[u8]) -> (r: bool)
    ensures
        r == (t@ == kw_minimize()),
{
    let w: [u8; 8] = [109, 105, 110, 105, 109, 105, 122, 101];
    assert(w@ == kw_minimize());
    same_bytes(t, w.as_slice())
}

fn is_maximize(t: &[u8]) -> (r: bool)
    ensures
        r == (t@ == kw_maximize()),
{
    let w: [u8; 8] = [109, 97, 120, 105, 109, 105, 122, 101];
    assert(w@ == kw_maximize());
    same_bytes(t, w.as_slice())
}

fn is_approximate(t: &[u8]) -> (r: bool)
    ensures
        r == (t@ == kw_approximate()),
{
    let w: [u8; 11] = [97, 112, 112, 114, 111, 120, 105, 109, 97, 116, 101];
    assert(w@ == kw_approximate());
    same_bytes(t, w.as_slice())
}

fn is_mean(t: &[u8]) -> (r: bool)
    ensures
        r == (t@ == kw_mean()),
{
    let w: [u8; 4] = [109, 101, 97, 110];
    assert(w@ == kw_mean());
    same_bytes(t, w.as_slice())
}

fn is_stddev(t: &[u8]) -> (r: bool)
    ensures
        r == (t@ == kw_stddev()),
{
    let w: [u8; 6] = [115, 116, 100, 100, 101, 118];
    assert(w@ == kw_stddev());
    same_bytes(t, w.as_slice())
}

fn is_min(t: &[u8]) -> (r: bool)
    ensures
        r == (t@ == kw_min()),
{
    let w: [u8; 3] = [109, 105, 110];
    assert(w@ == kw_min());
    same_bytes(t, w.as_slice())
}

fn is_max(t: &[u8]) -> (r: bool)
    ensures
        r == (t@ == kw_max()),
{
    let w: [u8; 3] = [109, 97, 120];
    assert(w@ == kw_max());
    same_bytes(t, w.as_slice())
}

fn is_chroma(t: &[u8]) -> (r: bool)
    ensures
        r == (t@ == kw_chroma()),
{
    let w: [u8; 6] = [99, 104, 114, 111, 109, 97];
    assert(w@ == kw_chroma());
    same_bytes(t, w.as_slice())
}

fn is_luminance(t: &[u8]) -> (r: bool)
    ensures
        r == (t@ == kw_luminance()),
{
    let w: [u8; 9] = [108, 117, 109, 105, 110, 97, 110, 99, 101];
    assert(w@ == kw_luminance());
    same_bytes(t, w.as_slice())
}

fn is_freedist(t: &[u8]) -> (r: bool)
    ensures
        r == (t@ == kw_freedist()),
{
    let w: [u8; 8] = [102, 114, 101, 101, 100, 105, 115, 116];
    assert(w@ == kw_freedist());
    same_bytes(t, w.as_slice())
}

fn is_fixeddist(t: &[u8]) -> (r: bool)
    ensures
        r == (t@ == kw_fixeddist()),
{
    let w: [u8; 9] = [102, 105, 120, 101, 100, 100, 105, 115, 116];
    assert(w@ == kw_fixeddist());
    same_bytes(t, w.as_slice())
}

fn is_target(t: &[u8]) -> (r: bool)
    ensures
        r == (t@ == kw_target()),
{
    let w: [u8; 6] = [116, 97, 114, 103, 101, 116];
    assert(w@ == kw_target());
    same_bytes(t, w.as_slice())
}

fn is_freecolorcount(t: &[u8]) -> (r: bool)
    ensures
        r == (t@ == kw_freecolorcount()),
{
    let w: [u8; 14] = [102, 114, 101, 101, 99, 111, 108, 111, 114, 99, 111, 117, 110, 116];
    assert(w@ == kw_freecolorcount());
    same_bytes(t, w.as_slice())
}

fn is_fg_color_count(t: &[u8]) -> (r: bool)
    ensures
        r == (t@ == kw_fg_color_count()),
{
    let w: [u8; 14] = [102, 103, 95, 99, 111, 108, 111, 114, 95, 99, 111, 117, 110, 116];
    assert(w@ == kw_fg_color_count());
    same_bytes(t, w.as_slice())
}

fn read_count(t: &[u8]) -> (r: Option<usize>)
    ensures
        r matches Some(c) ==> count_of(t@) == Some(c as int),
        r is None <==> count_of(t@) is None,
{
    let n = t.len();
    if n == 0 || t[0] == 45 {
        return None;
    }
    let sl: usize = if t[0] == 43 { 1 } else { 0 };
    if sl == n {
        return None;
    }
    match read_digits(t, sl, n) {
        None => None,
        Some(v) => {
            proof {
                lemma_digits_nonneg(t@.subrange(sl as int, n as int));
            }
            if v > usize::MAX as u128 {
                None
            } else {
                Some(v as usize)
            }
        },
    }
}

fn read_fixed(t: &[u8]) -> (r: Option<i64>)
    ensures
        r matches Some(v) ==> fixed_of(t@) == Some(v as int),
        r is None <==> fixed_of(t@) is None,
{
    parse_fixed(t)
}

fn read_stat(t: &[u8]) -> (r: Option<Stat>)
    ensures
        r == stat_word(t@),
{
    if is_mean(t) {
        Some(Stat::Mean)
    } else if is_stddev(t) {
        Some(Stat::StdDev)
    } else if is_min(t) {
        Some(Stat::Min)
    } else if is_max(t) {
        Some(Stat::Max)
    } else {
        None
    }
}

fn read_parameter(t: &[u8]) -> (r: Option<Parameter>)
    ensures
        r == parameter_word(t@),
{
    if is_chroma(t) {
        Some(Parameter::Chroma)
    } else if is_luminance(t) {
        Some(Parameter::Luminance)
    } else if is_freedist(t) {
        Some(Parameter::FreeDistance)
    } else if is_fixeddist(t) {
        Some(Parameter::FixedDistance)
    } else {
        None
    }
}

/// The target that the words `ts[from..]` describe.
fn target_from(ts: &Vec<Vec<u8>>, from: usize) -> (r: Result<Target, ParseError>)
    requires
        from <= ts@.len(),
    ensures
        r == target_of(views(ts@).subrange(from as int, ts@.len() as int)),
{
    let ghost w = views(ts@).subrange(from as int, ts@.len() as int);
    let n = ts.len();
    if from >= n {
        return Err(ParseError::ExpectedString);
    }
    assert(w[0] == ts@[from as int]@);
    let first = ts[from].as_slice();
    let (direction, k): (TargetDirection, usize) = if is_minimize(first) {
        (TargetDirection::Minimize, 1)
    } else if is_maximize(first) {
        (TargetDirection::Maximize, 1)
    } else if is_approximate(first) {
        if n - from < 2 {
            return Err(ParseError::ExpectedString);
        }
        assert(w[1] == ts@[from + 1]@);
        match read_fixed(ts[from + 1].as_slice()) {
            Some(v) => (TargetDirection::Approximate(v), 2),
            None => return Err(ParseError::ExpectedFloat),
        }
    } else {
        return Err(ParseError::ExpectedDirection);
    };
    assert(direction_of(w) == Ok::<(TargetDirection, int), ParseError>((direction, k as int)));
    if n - from <= k {
        return Err(ParseError::ExpectedString);
    }
    assert(w[k as int] == ts@[from + k]@);
    let stat = match read_stat(ts[from + k].as_slice()) {
        Some(s) => s,
        None => return Err(ParseError::ExpectedStat),
    };
    if n - from <= k + 1 {
        return Err(ParseError::ExpectedString);
    }
    assert(w[k + 1] == ts@[from + k + 1]@);
    let parameter = match read_parameter(ts[from + k + 1].as_slice()) {
        Some(p) => p,
        None => return Err(ParseError::ExpectedParameter),
    };
    let factor: i64 = if n - from > k + 2 {
        assert(w[k + 2] == ts@[from + k + 2]@);
        match read_fixed(ts[from + k + 2].as_slice()) {
            Some(f) => f,
            None => UNIT,
        }
    } else {
        UNIT
    };
    let exponent: i32 = if n - from > k + 3 {
        assert(w[k + 3] == ts@[from + k + 3]@);
        match parse_integer(ts[from + k + 3].as_slice()) {
            Some(e) => if -2147483648 <= e && e <= 2147483647 { e as i32 } else { 1 },
            None => 1,
        }
    } else {
        1
    };
    Ok(Target { direction, stat, parameter, strength: Strength { factor, exponent } })
}

/// The target that a line `<direction> <stat> <parameter> [<factor> [<exponent>]]`
/// describes (see [`target_of`]); numbers are read in thousandths.
pub fn line_to_target(line: &str) -> (r: Result<Target, ParseError>)
    ensures
        r == target_of(words_of(line.spec_bytes())),
{
    let ts = split_words(line.as_bytes());
    assert(views(ts@).subrange(0, ts@.len() as int) == views(ts@));
    target_from(&ts, 0)
}

/// The action that a line describes (see [`action_of`]).
pub fn line_to_action(line: &str) -> (r: Result<Action, ParseError>)
    ensures
        r == action_of(words_of(line.spec_bytes())),
{
    let ts = split_words(line.as_bytes());
    let ghost w = views(ts@);
    proof {
        lemma_split_nonempty(crate::words::trim_end(crate::words::trim_start(line.spec_bytes())));
    }
    assert(w[0] == ts@[0]@);
    if is_target(ts[0].as_slice()) {
        assert(w.drop_first() == views(ts@).subrange(1, ts@.len() as int));
        match target_from(&ts, 1) {
            Ok(t) => {
                assert(action_of(w) == Ok::<Action, ParseError>(Action::SetTarget(t)));
                Ok(Action::SetTarget(t))
            },
            Err(e) => Err(e),
        }
    } else if is_freecolorcount(ts[0].as_slice()) || is_fg_color_count(ts[0].as_slice()) {
        if ts.len() < 2 {
            return Err(ParseError::ExpectedString);
        }
        assert(w[1] == ts@[1]@);
        match read_count(ts[1].as_slice()) {
            None => Err(ParseError::ExpectedInt),
            Some(c) => if c == 0 {
                Err(ParseError::CountTooSmall)
            } else {
                Ok(Action::SetFreeColorCount(c))
            },
        }
    } else {
        assert(action_of(w) == Err::<Action, ParseError>(ParseError::ActionNotRecognized));
        Err(ParseError::ActionNotRecognized)
    }
}

} // verus!
