//! Calibration-time configuration: the screen region of the board, its
//! validation and its textual form, the engine configuration record, the
//! command-line argument records, and the control-channel message shapes.
use crate::error::CheatessError;
use crate::text::{spec_parse_int, spec_parse_uint, spec_trim, trim_str, u64_to_string};
use vstd::prelude::*;

verus! {

/// An axis-aligned rectangle in absolute screen coordinates.
#[derive(Debug, Clone, Copy, PartialEq, Eq, Structural)]
pub struct ScreenRegion {
    x: i32,
    y: i32,
    width: u32,
    height: u32,
}

impl ScreenRegion {
    /// The rectangle as its four numbers.
    pub closed spec fn spec_values(&self) -> (i32, i32, u32, u32) {
        (self.x, self.y, self.width, self.height)
    }

    /// Wraps four numbers as a region.
    pub fn new(x: i32, y: i32, width: u32, height: u32) -> (r: Self)
        ensures
            r.spec_values() == (x, y, width, height),
    {
        ScreenRegion { x, y, width, height }
    }

    /// The rectangle's four numbers.
    pub fn values(&self) -> (r: (i32, i32, u32, u32))
        ensures
            r == self.spec_values(),
    {
        (self.x, self.y, self.width, self.height)
    }

    /// Reads a region out of its textual form `(x, y, width, height)`.
    pub fn try_from(s: &str) -> (r: Result<ScreenRegion, String>)
        ensures
            match r {
                Ok(reg) => spec_parse_region(s@) == Some(reg.spec_values()),
                Err(_) => spec_parse_region(s@) is None,
            },
    {
        let inner = strip_parens(s);
        let parts = split_commas(inner.as_str());
        if parts.len() != 4 {
            let mut m = "Invalid input: expected 4 elements, got ".to_owned();
            let n = u64_to_string(parts.len() as u64);
            m.append(n.as_str());
            return Err(m);
        }
        proof {
            assert(parts.deep_view()[0] == parts@[0]@);
            assert(parts.deep_view()[1] == parts@[1]@);
            assert(parts.deep_view()[2] == parts@[2]@);
            assert(parts.deep_view()[3] == parts@[3]@);
        }
        let t0 = trim_str(parts[0].as_str());
        let t1 = trim_str(parts[1].as_str());
        let t2 = trim_str(parts[2].as_str());
        let t3 = trim_str(parts[3].as_str());
        let x = match parse_i32(t0.as_str()) {
            Some(v) => v,
            None => {
                return Err("invalid integer".to_owned());
            },
        };
        let y = match parse_i32(t1.as_str()) {
            Some(v) => v,
            None => {
                return Err("invalid integer".to_owned());
            },
        };
        let w = match parse_u32(t2.as_str()) {
            Some(v) => v,
            None => {
                return Err("invalid integer".to_owned());
            },
        };
        let h = match parse_u32(t3.as_str()) {
            Some(v) => v,
            None => {
                return Err("invalid integer".to_owned());
            },
        };
        Ok(ScreenRegion { x, y, width: w, height: h })
    }
}

/// A signed number an `i32` can hold, read from text.
pub open spec fn spec_parse_i32(t: Seq<char>) -> Option<i32> {
    match spec_parse_int(t) {
        Some(v) => if -0x8000_0000 <= v <= 0x7fff_ffff {
            Some(v as i32)
        } else {
            None
        },
        None => None,
    }
}

/// An unsigned number a `u32` can hold, read from text.
pub open spec fn spec_parse_u32(t: Seq<char>) -> Option<u32> {
    match spec_parse_uint(t) {
        Some(v) => if v <= 0xffff_ffff {
            Some(v as u32)
        } else {
            None
        },
        None => None,
    }
}

fn parse_i32(t: &str) -> (r: Option<i32>)
    ensures
        r == spec_parse_i32(t@),
{
    match crate::text::parse_i64(t) {
        Some(v) => {
            if -0x8000_0000i64 <= v && v <= 0x7fff_ffffi64 {
                Some(v as i32)
            } else {
                None
            }
        },
        None => None,
    }
}

fn parse_u32(t: &str) -> (r: Option<u32>)
    ensures
        r == spec_parse_u32(t@),
{
    match crate::text::parse_u64(t) {
        Some(v) => {
            if v <= 0xffff_ffffu64 {
                Some(v as u32)
            } else {
                None
            }
        },
        None => None,
    }
}

pub open spec fn is_paren(c: char) -> bool {
    c == '(' || c == ')'
}

fn paren_char(c: char) -> (r: bool)
    ensures
        r == is_paren(c),
{
    c == '(' || c == ')'
}

/// The first position at or after `i` holding no parenthesis.
pub open spec fn spec_skip_parens_left(s: Seq<char>, i: int) -> int
    decreases s.len() - i when 0 <= i <= s.len()
{
    if i >= s.len() || !is_paren(s[i]) {
        i
    } else {
        spec_skip_parens_left(s, i + 1)
    }
}

/// The position just after the last non-parenthesis before `j`, or zero.
pub open spec fn spec_skip_parens_right(s: Seq<char>, j: int) -> int
    decreases j when 0 <= j <= s.len()
{
    if j <= 0 || !is_paren(s[j - 1]) {
        j
    } else {
        spec_skip_parens_right(s, j - 1)
    }
}

/// `s` without leading and trailing parentheses.
pub open spec fn spec_strip_parens(s: Seq<char>) -> Seq<char> {
    let a = spec_skip_parens_left(s, 0);
    let b = spec_skip_parens_right(s, s.len() as int);
    if a >= b {
        Seq::empty()
    } else {
        s.subrange(a, b)
    }
}

fn skip_parens_left(s: &str, i: usize) -> (r: usize)
    requires
        i <= s@.len(),
    ensures
        r == spec_skip_parens_left(s@, i as int),
        i <= r <= s@.len(),
    decreases s@.len() - i,
{
    let len = s.unicode_len();
    if i >= len {
        i
    } else if !paren_char(s.get_char(i)) {
        i
    } else {
        skip_parens_left(s, i + 1)
    }
}

fn skip_parens_right(s: &str, j: usize) -> (r: usize)
    requires
        j <= s@.len(),
    ensures
        r == spec_skip_parens_right(s@, j as int),
        r <= j,
    decreases j,
{
    if j == 0 {
        j
    } else if !paren_char(s.get_char(j - 1)) {
        j
    } else {
        skip_parens_right(s, j - 1)
    }
}

fn strip_parens(s: &str) -> (r: String)
    ensures
        r@ == spec_strip_parens(s@),
{
    let len = s.unicode_len();
    let a = skip_parens_left(s, 0);
    let b = skip_parens_right(s, len);
    if a >= b {
        let r = String::new();
        assert(r@ =~= spec_strip_parens(s@));
        r
    } else {
        s.substring_char(a, b).to_owned()
    }
}

/// The first position at or after `i` holding a comma, or the text's end.
pub open spec fn spec_comma_end(s: Seq<char>, i: int) -> int
    decreases s.len() - i when 0 <= i <= s.len()
{
    if i >= s.len() || s[i] == ',' {
        i
    } else {
        spec_comma_end(s, i + 1)
    }
}

proof fn lemma_comma_end(s: Seq<char>, i: int)
    requires
        0 <= i <= s.len(),
    ensures
        i <= spec_comma_end(s, i) <= s.len(),
    decreases s.len() - i,
{
    if i < s.len() && s[i] != ',' {
        lemma_comma_end(s, i + 1);
    }
}

/// `s` cut at every comma, from position `i` on; empty pieces are kept.
pub open spec fn spec_split_commas_from(s: Seq<char>, i: int) -> Seq<Seq<char>>
    decreases s.len() - i when 0 <= i <= s.len() via spec_split_commas_dec
{
    let e = spec_comma_end(s, i);
    if e >= s.len() {
        seq![s.subrange(i, s.len() as int)]
    } else {
        seq![s.subrange(i, e)] + spec_split_commas_from(s, e + 1)
    }
}

#[via_fn]
proof fn spec_split_commas_dec(s: Seq<char>, i: int) {
    if 0 <= i <= s.len() {
        lemma_comma_end(s, i);
    }
}

fn comma_end(s: &str, i: usize) -> (r: usize)
    requires
        i <= s@.len(),
    ensures
        r == spec_comma_end(s@, i as int),
        i <= r <= s@.len(),
    decreases s@.len() - i,
{
    let len = s.unicode_len();
    if i >= len {
        i
    } else if s.get_char(i) == ',' {
        i
    } else {
        comma_end(s, i + 1)
    }
}

fn split_commas_from(s: &str, i: usize) -> (r: Vec<String>)
    requires
        i <= s@.len(),
    ensures
        r.deep_view() == spec_split_commas_from(s@, i as int),
    decreases s@.len() - i,
{
    let len = s.unicode_len();
    let e = comma_end(s, i);
    let piece = s.substring_char(i, e).to_owned();
    if e >= len {
        let mut r: Vec<String> = Vec::new();
        r.push(piece);
        proof {
            assert(r.deep_view() =~= spec_split_commas_from(s@, i as int));
        }
        r
    } else {
        let mut rest = split_commas_from(s, e + 1);
        let ghost tail = rest.deep_view();
        let ghost old_vec = rest@;
        rest.insert(0, piece);
        proof {
            let whole = seq![s@.subrange(i as int, spec_comma_end(s@, i as int))] + tail;
            assert forall|k: int| 0 <= k < rest.deep_view().len() implies rest.deep_view()[k]
                == whole[k] by {
                if k > 0 {
                    assert(rest@[k] == old_vec[k - 1]);
                }
            }
            assert(rest.deep_view() =~= whole);
        }
        rest
    }
}

/// Splits a text at every comma; empty pieces are kept.
pub fn split_commas(s: &str) -> (r: Vec<String>)
    ensures
        r.deep_view() == spec_split_commas_from(s@, 0),
{
    split_commas_from(s, 0)
}

/// The four numbers of a region's textual form `(x, y, width, height)`:
/// outer parentheses dropped, the text cut at commas into exactly four
/// pieces, each piece trimmed and read as a number of the field's type.
pub open spec fn spec_parse_region(s: Seq<char>) -> Option<(i32, i32, u32, u32)> {
    let inner = spec_strip_parens(s);
    let ps = spec_split_commas_from(inner, 0);
    if ps.len() != 4 {
        None
    } else {
        match (
            spec_parse_i32(spec_trim(ps[0])),
            spec_parse_i32(spec_trim(ps[1])),
            spec_parse_u32(spec_trim(ps[2])),
            spec_parse_u32(spec_trim(ps[3])),
        ) {
            (Some(x), Some(y), Some(w), Some(h)) => Some((x, y, w, h)),
            _ => None,
        }
    }
}

/// Checks a region before calibration uses it: both extents non-zero and
/// both coordinates non-negative.
pub fn validate_region(region: &ScreenRegion) -> (r: Result<(), String>)
    ensures
        ({
            let v = region.spec_values();
            match r {
                Ok(u) => v.2 != 0 && v.3 != 0 && v.0 >= 0 && v.1 >= 0,
                Err(m) => (v.2 == 0 || v.3 == 0 || v.0 < 0 || v.1 < 0) && (if v.2 == 0 || v.3
                    == 0 {
                    m@ == "Width and height must be non-zero"@
                } else {
                    m@ == "Coordinates must be non-negative"@
                }),
            }
        }),
{
    let (x, y, width, height) = region.values();
    if width == 0 || height == 0 {
        return Err("Width and height must be non-zero".to_owned());
    }
    if x < 0 || y < 0 {
        return Err("Coordinates must be non-negative".to_owned());
    }
    Ok(())
}

/// The engine's own configuration record.
#[derive(Debug)]
pub struct StockfishConfig {
    engine_path: String,
    depth: u8,
    memory: usize,
    elo: usize,
}

impl StockfishConfig {
    pub closed spec fn spec_engine_path(&self) -> Seq<char> {
        self.engine_path@
    }

    pub closed spec fn spec_depth(&self) -> u8 {
        self.depth
    }

    pub closed spec fn spec_memory(&self) -> usize {
        self.memory
    }

    pub closed spec fn spec_elo(&self) -> usize {
        self.elo
    }

    /// Builds an engine configuration; missing values fall back to a depth
    /// of 10, 1024 megabytes of memory and an Elo of 2500.
    pub fn new(engine_path: &str, depth: Option<u8>, memory: Option<usize>, elo: Option<usize>) -> (r:
        Result<StockfishConfig, CheatessError>)
        ensures
            r matches Ok(c) ==> c.spec_engine_path() == engine_path@ && c.spec_depth() == (
            match depth {
                Some(d) => d,
                None => 10,
            }) && c.spec_memory() == (match memory {
                Some(m) => m,
                None => 1024,
            }) && c.spec_elo() == (match elo {
                Some(e) => e,
                None => 2500,
            }),
            r is Ok,
    {
        let d = match depth {
            Some(d) => d,
            None => 10,
        };
        let m = match memory {
            Some(m) => m,
            None => 1024,
        };
        let e = match elo {
            Some(e) => e,
            None => 2500,
        };
        Ok(StockfishConfig { engine_path: engine_path.to_owned(), depth: d, memory: m, elo: e })
    }
}

/// Which monitor to watch; nothing selects the primary one.
#[derive(Debug)]
pub struct MonitorArgs {
    pub name: Option<String>,
}

/// The engine's command-line configuration.
#[derive(Debug)]
pub struct StockfishArgs {
    pub path: String,
    pub elo: usize,
    pub skill: u8,
    pub depth: u8,
    pub hash: usize,
    pub pv: usize,
}

/// Rendering configuration: letters or chess glyphs.
#[derive(Debug)]
pub struct EngineArgs {
    pub pretty: bool,
}

/// Whether a run plays a game or walks the interactive calibration.
#[derive(Debug, Clone, Copy, PartialEq, Eq, PartialOrd, Ord, Default, Structural)]
pub enum Mode {
    #[default]
    Game,
    Test,
}

/// The kinds of messages the control channel carries.
#[derive(Debug, Clone, Copy, PartialEq, Eq, Structural)]
pub enum MsgKey {
    Configurate,
    Ping,
    Game,
    Region,
    Okay,
}

/// One control-channel message: its kind and a free-form payload.
#[derive(Debug)]
pub struct ProtocolInterface {
    pub key: MsgKey,
    pub message: String,
}

} // verus!
