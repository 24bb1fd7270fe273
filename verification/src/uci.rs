//! The UCI engine driver: the line-protocol parsing (best moves, FEN
//! retrieval, evaluation and principal-variation extraction, win/draw/loss
//! counts), the option table, and the driver that speaks to the engine
//! subprocess through the `Process` capability.
use crate::error::CheatessError;
use crate::pattern::{regex_matches, Pattern};
use crate::text::{
    contains_sub, eq_str, push_char, spec_contains_seq, spec_digits, spec_parse_int, spec_tokens,
    spec_trim, tokenize, trim_str, u64_to_string,
};
use vstd::prelude::*;

verus! {

/// One principal variation of the engine's answer: the evaluation as a
/// decimal string (or `M` and a distance for mate) and the moves of the
/// line.
pub struct Summary {
    pub eval: String,
    pub main_line: Vec<String>,
}

/// The first position at or after `i` where the token list holds exactly
/// `t`, or a negative value where none does.
pub open spec fn first_index_from(toks: Seq<Seq<char>>, t: Seq<char>, i: int) -> int
    decreases toks.len() - i when 0 <= i <= toks.len()
{
    if i >= toks.len() {
        -1
    } else if toks[i] == t {
        i
    } else {
        first_index_from(toks, t, i + 1)
    }
}

fn token_position_from(toks: &Vec<String>, t: &str, i: usize) -> (r: Option<usize>)
    requires
        i <= toks@.len(),
    ensures
        match r {
            Some(k) => first_index_from(toks.deep_view(), t@, i as int) == k && i <= k
                < toks@.len(),
            None => first_index_from(toks.deep_view(), t@, i as int) == -1,
        },
    decreases toks@.len() - i,
{
    if i >= toks.len() {
        None
    } else {
        proof {
            assert(toks.deep_view()[i as int] == toks@[i as int]@);
        }
        if eq_str(toks[i].as_str(), t) {
            Some(i)
        } else {
            token_position_from(toks, t, i + 1)
        }
    }
}

/// What scanning engine lines for a `bestmove` answer yields: nothing if no
/// line's first token is `bestmove`; otherwise the move it names (none for
/// `(none)` or a bare `bestmove`) together with the line read just before
/// it, the driver's diagnostic `info` line.
pub open spec fn spec_bestmove_scan(lines: Seq<Seq<char>>, i: int, last: Seq<char>) -> Option<
    (Option<Seq<char>>, Seq<char>),
>
    decreases lines.len() - i when 0 <= i <= lines.len()
{
    if i >= lines.len() {
        None
    } else {
        let toks = spec_tokens(lines[i]);
        if toks.len() == 0 {
            spec_bestmove_scan(lines, i + 1, last)
        } else if toks[0] == "bestmove"@ {
            if toks.len() > 1 && toks[1] != "(none)"@ {
                Some((Some(toks[1]), last))
            } else {
                Some((None, last))
            }
        } else {
            spec_bestmove_scan(lines, i + 1, lines[i])
        }
    }
}

/// A move the bestmove scan returns is never the `(none)` marker.
pub proof fn lemma_bestmove_scan_no_none(lines: Seq<Seq<char>>, i: int, last: Seq<char>)
    requires
        0 <= i <= lines.len(),
    ensures
        match spec_bestmove_scan(lines, i, last) {
            Some(p) => match p.0 {
                Some(m) => m != "(none)"@,
                None => true,
            },
            None => true,
        },
    decreases lines.len() - i,
{
    if i < lines.len() {
        let toks = spec_tokens(lines[i]);
        if toks.len() == 0 {
            lemma_bestmove_scan_no_none(lines, i + 1, last);
        } else if toks[0] == "bestmove"@ {
        } else {
            lemma_bestmove_scan_no_none(lines, i + 1, lines[i]);
        }
    }
}

fn scan_bestmove(lines: &Vec<String>, i: usize, last: String) -> (r: Option<
    (Option<String>, String),
>)
    requires
        i <= lines@.len(),
    ensures
        ({
            let s = spec_bestmove_scan(lines.deep_view(), i as int, last@);
            match r {
                Some(p) => s matches Some(sp) && sp.1 == p.1@ && (match p.0 {
                    Some(m) => sp.0 == Some(m@),
                    None => sp.0 is None,
                }),
                None => s is None,
            }
        }),
    decreases lines@.len() - i,
{
    if i >= lines.len() {
        None
    } else {
        proof {
            assert(lines.deep_view()[i as int] == lines@[i as int]@);
        }
        let toks = tokenize(lines[i].as_str());
        if toks.len() == 0 {
            scan_bestmove(lines, i + 1, last)
        } else if eq_str(toks[0].as_str(), "bestmove") {
            proof {
                assert(toks.deep_view()[0] == toks@[0]@);
            }
            if toks.len() > 1 && !eq_str(toks[1].as_str(), "(none)") {
                proof {
                    assert(toks.deep_view()[1] == toks@[1]@);
                }
                let m = toks[1].clone();
                Some((Some(m), last))
            } else {
                proof {
                    if toks@.len() > 1 {
                        assert(toks.deep_view()[1] == toks@[1]@);
                    }
                }
                Some((None, last))
            }
        } else {
            proof {
                assert(toks.deep_view()[0] == toks@[0]@);
            }
            let next_last = lines[i].clone();
            scan_bestmove(lines, i + 1, next_last)
        }
    }
}

/// Scans captured engine lines for the `bestmove` answer: the returned move
/// (none for `(none)`) and the line just before it, for diagnostics.
pub fn parse_bestmove_lines(lines: &Vec<String>) -> (r: Option<(Option<String>, String)>)
    ensures
        ({
            let s = spec_bestmove_scan(lines.deep_view(), 0, Seq::empty());
            match r {
                Some(p) => s matches Some(sp) && sp.1 == p.1@ && (match p.0 {
                    Some(m) => sp.0 == Some(m@),
                    None => sp.0 is None,
                }),
                None => s is None,
            }
        }),
        match r {
            Some(p) => match p.0 {
                Some(m) => m@ != "(none)"@,
                None => true,
            },
            None => true,
        },
{
    proof {
        lemma_bestmove_scan_no_none(lines.deep_view(), 0, Seq::empty());
    }
    let last = String::new();
    proof {
        assert(last@ =~= Seq::<char>::empty());
    }
    scan_bestmove(lines, 0, last)
}

/// Reads the FEN out of one engine line: the trimmed line must hold
/// `Fen: `, and the text from its sixth character on is the FEN.
pub fn parse_fen_line(line: &str) -> (r: Result<String, CheatessError>)
    ensures
        ({
            let t = spec_trim(line@);
            match r {
                Ok(f) => spec_contains_seq(t, "Fen: "@) && f@ == t.skip(5),
                Err(e) => e == CheatessError::EngineProtocol && !spec_contains_seq(t, "Fen: "@),
            }
        }),
{
    proof {
        reveal_strlit("Fen: ");
    }
    let t = trim_str(line);
    if contains_sub(t.as_str(), "Fen: ") {
        proof {
            let tv = spec_trim(line@);
            let i = choose|i: int|
                0 <= i && i + "Fen: "@.len() <= tv.len() && #[trigger] tv.subrange(
                    i,
                    i + "Fen: "@.len(),
                ) == "Fen: "@;
            assert(tv.len() >= 5);
        }
        let ts = t.as_str();
        let l = ts.unicode_len();
        let f = ts.substring_char(5, l).to_owned();
        proof {
            assert(f@ =~= spec_trim(line@).skip(5));
        }
        Ok(f)
    } else {
        Err(CheatessError::EngineProtocol)
    }
}

/// The decimal the driver prints for a centipawn score, with the side sign
/// applied: the score divided by one hundred, rendered with up to two
/// fraction digits and trailing zeros dropped, as formatting the binary
/// value would print it. A zero score for the black side keeps the negative
/// sign of the sign application.
pub open spec fn spec_eval_cp_string(cp: int, white: bool) -> Seq<char> {
    let neg = if white {
        cp < 0
    } else {
        cp >= 0
    };
    let mag = if cp < 0 {
        -cp
    } else {
        cp
    };
    let ip = (mag / 100) as nat;
    let fr = (mag % 100) as nat;
    let body = if fr == 0 {
        spec_digits(ip)
    } else if fr % 10 == 0 {
        spec_digits(ip) + seq!['.'] + spec_digits(fr / 10)
    } else if fr < 10 {
        spec_digits(ip) + seq!['.', '0'] + spec_digits(fr)
    } else {
        spec_digits(ip) + seq!['.'] + spec_digits(fr)
    };
    if neg {
        seq!['-'] + body
    } else {
        body
    }
}

/// Renders a centipawn score with the side sign applied.
pub fn eval_cp_string(cp: i64, white: bool) -> (r: String)
    ensures
        r@ == spec_eval_cp_string(cp as int, white),
{
    let neg = if white {
        cp < 0
    } else {
        cp >= 0
    };
    let mag: u64 = if cp < 0 {
        if cp == i64::MIN {
            0x8000_0000_0000_0000u64
        } else {
            (-cp) as u64
        }
    } else {
        cp as u64
    };
    let ip = mag / 100;
    let fr = mag % 100;
    let mut s = String::new();
    if neg {
        push_char(&mut s, '-');
    }
    let ips = u64_to_string(ip);
    s.append(ips.as_str());
    if fr != 0 {
        push_char(&mut s, '.');
        if fr % 10 == 0 {
            let d = u64_to_string(fr / 10);
            s.append(d.as_str());
        } else if fr < 10 {
            push_char(&mut s, '0');
            let d = u64_to_string(fr);
            s.append(d.as_str());
        } else {
            let d = u64_to_string(fr);
            s.append(d.as_str());
        }
    }
    proof {
        assert(s@ =~= spec_eval_cp_string(cp as int, white));
    }
    s
}

/// The mate rendering of the multi-variation summary: `M` and the mate
/// distance, negated for the black side (whatever the distance's own sign).
pub open spec fn spec_eval_mate_scalar(white: bool, m: int) -> Seq<char> {
    let mag = (if m < 0 {
        -m
    } else {
        m
    }) as nat;
    (if white {
        Seq::<char>::empty()
    } else {
        seq!['-']
    }) + seq!['M'] + spec_digits(mag)
}

/// Renders a mate distance with the side sign.
pub fn eval_mate_scalar(white: bool, m: i64) -> (r: String)
    ensures
        r@ == spec_eval_mate_scalar(white, m as int),
{
    let mag: u64 = if m < 0 {
        if m == i64::MIN {
            0x8000_0000_0000_0000u64
        } else {
            (-m) as u64
        }
    } else {
        m as u64
    };
    let mut s = String::new();
    if !white {
        push_char(&mut s, '-');
    }
    push_char(&mut s, 'M');
    let d = u64_to_string(mag);
    s.append(d.as_str());
    proof {
        assert(s@ =~= spec_eval_mate_scalar(white, m as int));
    }
    s
}

/// The mate rendering of the single-line evaluation: signed by the mate
/// distance itself.
pub open spec fn spec_eval_mate_by_value(m: int) -> Seq<char> {
    let mag = (if m < 0 {
        -m
    } else {
        m
    }) as nat;
    (if m < 0 {
        seq!['-']
    } else {
        Seq::<char>::empty()
    }) + seq!['M'] + spec_digits(mag)
}

fn eval_mate_by_value(m: i64) -> (r: String)
    ensures
        r@ == spec_eval_mate_by_value(m as int),
{
    let mag: u64 = if m < 0 {
        if m == i64::MIN {
            0x8000_0000_0000_0000u64
        } else {
            (-m) as u64
        }
    } else {
        m as u64
    };
    let mut s = String::new();
    if m < 0 {
        push_char(&mut s, '-');
    }
    push_char(&mut s, 'M');
    let d = u64_to_string(mag);
    s.append(d.as_str());
    proof {
        assert(s@ =~= spec_eval_mate_by_value(m as int));
    }
    s
}

/// A value the signed 64-bit parser can hand back.
pub open spec fn in_i64(v: int) -> bool {
    -0x8000_0000_0000_0000 <= v <= 0x7fff_ffff_ffff_ffff
}

/// The evaluation string an info line's tokens yield: the two tokens after
/// the first `score` token name the kind (`cp` or `mate`) and the value, and
/// the side sign is applied. Nothing where the tokens lack that shape or the
/// value does not read as a number.
pub open spec fn spec_score_string(toks: Seq<Seq<char>>, white: bool) -> Option<Seq<char>> {
    let si = first_index_from(toks, "score"@, 0);
    if si >= 0 && si + 2 < toks.len() {
        if toks[si + 1] == "cp"@ {
            match spec_parse_int(toks[si + 2]) {
                Some(v) => if in_i64(v) {
                    Some(spec_eval_cp_string(v, white))
                } else {
                    None
                },
                None => None,
            }
        } else if toks[si + 1] == "mate"@ {
            match spec_parse_int(toks[si + 2]) {
                Some(v) => if in_i64(v) {
                    Some(spec_eval_mate_scalar(white, v))
                } else {
                    None
                },
                None => None,
            }
        } else {
            None
        }
    } else {
        None
    }
}

/// What one info line yields for the summary: its evaluation string and the
/// tokens after the first `pv` token, or nothing where either part is
/// missing or unreadable.
pub open spec fn spec_line_values(line: Seq<char>, white: bool) -> Option<
    (Seq<char>, Seq<Seq<char>>),
> {
    let toks = spec_tokens(line);
    let pi = first_index_from(toks, "pv"@, 0);
    match spec_score_string(toks, white) {
        Some(e) => if pi >= 0 {
            Some((e, toks.skip(pi + 1)))
        } else {
            None
        },
        None => None,
    }
}

fn line_values(line: &str, white: bool) -> (r: Option<(String, Vec<String>)>)
    ensures
        match r {
            Some(p) => spec_line_values(line@, white) == Some((p.0@, p.1.deep_view())),
            None => spec_line_values(line@, white) is None,
        },
{
    let toks = tokenize(line);
    let spos = token_position_from(&toks, "score", 0);
    let eval: Option<String> = match spos {
        Some(si) => {
            if toks.len() - si > 2 {
                proof {
                    assert(toks.deep_view()[si as int + 1] == toks@[si as int + 1]@);
                    assert(toks.deep_view()[si as int + 2] == toks@[si as int + 2]@);
                }
                if eq_str(toks[si + 1].as_str(), "cp") {
                    match crate::text::parse_i64(toks[si + 2].as_str()) {
                        Some(v) => Some(eval_cp_string(v, white)),
                        None => None,
                    }
                } else if eq_str(toks[si + 1].as_str(), "mate") {
                    match crate::text::parse_i64(toks[si + 2].as_str()) {
                        Some(v) => Some(eval_mate_scalar(white, v)),
                        None => None,
                    }
                } else {
                    None
                }
            } else {
                None
            }
        },
        None => None,
    };
    match eval {
        Some(e) => {
            match token_position_from(&toks, "pv", 0) {
                Some(pi) => {
                    let mut pvs: Vec<String> = Vec::new();
                    let mut k: usize = pi + 1;
                    while k < toks.len()
                        invariant
                            pi + 1 <= k <= toks@.len(),
                            pvs.deep_view() =~= toks.deep_view().subrange(pi + 1, k as int),
                        decreases toks@.len() - k,
                    {
                        proof {
                            assert(toks.deep_view()[k as int] == toks@[k as int]@);
                        }
                        let t = toks[k].clone();
                        let ghost pvd = pvs.deep_view();
                        let ghost pvv = pvs@;
                        pvs.push(t);
                        proof {
                            assert(pvs.deep_view().len() == pvd.len() + 1);
                            assert forall|q: int| 0 <= q < pvd.len() implies #[trigger] pvs.deep_view()[q]
                                == pvd[q] by {
                                assert(pvs@[q] == pvv[q]);
                            }
                            assert(pvs.deep_view()[pvd.len() as int] =~= toks.deep_view()[k as int]);
                        }
                        k = k + 1;
                    }
                    proof {
                        assert(pvs.deep_view() =~= spec_tokens(line@).skip(pi + 1));
                    }
                    Some((e, pvs))
                },
                None => None,
            }
        },
        None => None,
    }
}

/// The summary entry the captured lines yield for one pattern: scanning from
/// the last line towards the first, the first line that matches the pattern
/// and yields both an evaluation and a principal variation wins.
pub open spec fn spec_extract_scan(
    pat: Seq<char>,
    lines: Seq<Seq<char>>,
    k: int,
    white: bool,
) -> Option<(Seq<char>, Seq<Seq<char>>)>
    decreases k,
{
    if k <= 0 || k > lines.len() {
        None
    } else {
        let l = lines[k - 1];
        if regex_matches(pat, l) && spec_line_values(l, white) is Some {
            spec_line_values(l, white)
        } else {
            spec_extract_scan(pat, lines, k - 1, white)
        }
    }
}

fn extract_rec(pat: &Pattern, data: &Vec<String>, k: usize, white: bool) -> (r: Option<
    (String, Vec<String>),
>)
    requires
        k <= data@.len(),
    ensures
        ({
            let s = spec_extract_scan(pat.spec_src(), data.deep_view(), k as int, white);
            match r {
                Some(p) => s == Some((p.0@, p.1.deep_view())),
                None => s is None,
            }
        }),
    decreases k,
{
    if k == 0 {
        None
    } else {
        proof {
            assert(data.deep_view()[k - 1] == data@[k - 1]@);
        }
        if pat.is_match(data[k - 1].as_str()) {
            match line_values(data[k - 1].as_str(), white) {
                Some(p) => Some(p),
                None => extract_rec(pat, data, k - 1, white),
            }
        } else {
            extract_rec(pat, data, k - 1, white)
        }
    }
}

/// Pulls one principal variation's evaluation and move list out of captured
/// engine lines: the last line matching the pattern that yields both parts
/// wins; if no line does, the engine output had lost its expected shape.
pub fn extract_from_lines(pat: &Pattern, data: &Vec<String>, white_to_move: bool) -> (r: Result<
    (String, Vec<String>),
    CheatessError,
>)
    ensures
        ({
            let s = spec_extract_scan(
                pat.spec_src(),
                data.deep_view(),
                data@.len() as int,
                white_to_move,
            );
            match r {
                Ok(p) => s == Some((p.0@, p.1.deep_view())),
                Err(e) => e == CheatessError::EngineProtocol && s is None,
            }
        }),
{
    let n = data.len();
    match extract_rec(pat, data, n, white_to_move) {
        Some(p) => Ok(p),
        None => Err(CheatessError::EngineProtocol),
    }
}

/// The pattern the summary matches info lines against: the configured depth
/// and the wanted variation number.
pub open spec fn spec_pv_pattern(depth: nat, nth: nat) -> Seq<char> {
    "info depth "@ + spec_digits(depth) + "\\s+.*multipv "@ + spec_digits(nth)
}

/// Builds the info-line pattern for one depth and variation number.
pub fn pv_pattern(depth: u8, nth: u64) -> (r: String)
    ensures
        r@ == spec_pv_pattern(depth as nat, nth as nat),
{
    let mut s = "info depth ".to_owned();
    let d = u64_to_string(depth as u64);
    s.append(d.as_str());
    s.append("\\s+.*multipv ");
    let m = u64_to_string(nth);
    s.append(m.as_str());
    proof {
        assert(s@ =~= spec_pv_pattern(depth as nat, nth as nat));
    }
    s
}

/// Whether each entry of a summary is exactly the extraction of its
/// variation number (entry `i` holds variation `i + 1`) from one captured
/// line sequence under one side sign.
pub open spec fn spec_summary_matches(
    depth: nat,
    lines: Seq<Seq<char>>,
    white: bool,
    v: Seq<Summary>,
) -> bool {
    forall|i: int|
        0 <= i < v.len() ==> #[trigger] spec_extract_scan(
            spec_pv_pattern(depth, (i + 1) as nat),
            lines,
            lines.len() as int,
            white,
        ) == Some(((v[i].eval)@, v[i].main_line.deep_view()))
}

/// The last centipawn and mate scores seen among info lines before the
/// first `bestmove` line, each kept separately; values that do not read as
/// numbers leave the running values untouched.
pub open spec fn spec_eval_scan(
    lines: Seq<Seq<char>>,
    i: int,
    cp: Option<int>,
    mate: Option<int>,
) -> (Option<int>, Option<int>)
    decreases lines.len() - i when 0 <= i <= lines.len()
{
    if i >= lines.len() {
        (cp, mate)
    } else {
        let toks = spec_tokens(lines[i]);
        if toks.len() == 0 {
            spec_eval_scan(lines, i + 1, cp, mate)
        } else if toks[0] == "bestmove"@ {
            (cp, mate)
        } else if toks[0] == "info"@ {
            let si = first_index_from(toks, "score"@, 0);
            if si >= 0 && si + 2 < toks.len() {
                if toks[si + 1] == "cp"@ {
                    match spec_parse_int(toks[si + 2]) {
                        Some(v) => if in_i64(v) {
                            spec_eval_scan(lines, i + 1, Some(v), mate)
                        } else {
                            spec_eval_scan(lines, i + 1, cp, mate)
                        },
                        None => spec_eval_scan(lines, i + 1, cp, mate),
                    }
                } else if toks[si + 1] == "mate"@ {
                    match spec_parse_int(toks[si + 2]) {
                        Some(v) => if in_i64(v) {
                            spec_eval_scan(lines, i + 1, cp, Some(v))
                        } else {
                            spec_eval_scan(lines, i + 1, cp, mate)
                        },
                        None => spec_eval_scan(lines, i + 1, cp, mate),
                    }
                } else {
                    spec_eval_scan(lines, i + 1, cp, mate)
                }
            } else {
                spec_eval_scan(lines, i + 1, cp, mate)
            }
        } else {
            spec_eval_scan(lines, i + 1, cp, mate)
        }
    }
}

/// The single-line evaluation of captured engine lines: a mate score wins
/// over a centipawn score and is signed by its own value; a centipawn score
/// is divided by one hundred with the side sign applied; no score at all
/// reads as zero.
pub open spec fn spec_evaluation(lines: Seq<Seq<char>>, white: bool) -> Seq<char> {
    let r = spec_eval_scan(lines, 0, None, None);
    match r.1 {
        Some(m) => spec_eval_mate_by_value(m),
        None => match r.0 {
            Some(v) => spec_eval_cp_string(v, white),
            None => seq!['0'],
        },
    }
}

fn eval_scan_rec(lines: &Vec<String>, i: usize, cp: Option<i64>, mate: Option<i64>) -> (r: (
    Option<i64>,
    Option<i64>,
))
    requires
        i <= lines@.len(),
    ensures
        ({
            let s = spec_eval_scan(
                lines.deep_view(),
                i as int,
                match cp {
                    Some(v) => Some(v as int),
                    None => None,
                },
                match mate {
                    Some(v) => Some(v as int),
                    None => None,
                },
            );
            &&& (match r.0 {
                Some(v) => s.0 == Some(v as int),
                None => s.0 is None,
            })
            &&& (match r.1 {
                Some(v) => s.1 == Some(v as int),
                None => s.1 is None,
            })
        }),
    decreases lines@.len() - i,
{
    if i >= lines.len() {
        (cp, mate)
    } else {
        proof {
            assert(lines.deep_view()[i as int] == lines@[i as int]@);
        }
        let toks = tokenize(lines[i].as_str());
        if toks.len() == 0 {
            eval_scan_rec(lines, i + 1, cp, mate)
        } else {
            proof {
                assert(toks.deep_view()[0] == toks@[0]@);
            }
            if eq_str(toks[0].as_str(), "bestmove") {
                (cp, mate)
            } else if eq_str(toks[0].as_str(), "info") {
                match token_position_from(&toks, "score", 0) {
                    Some(si) => {
                        if toks.len() - si > 2 {
                            proof {
                                assert(toks.deep_view()[si as int + 1] == toks@[si as int + 1]@);
                                assert(toks.deep_view()[si as int + 2] == toks@[si as int + 2]@);
                            }
                            if eq_str(toks[si + 1].as_str(), "cp") {
                                match crate::text::parse_i64(toks[si + 2].as_str()) {
                                    Some(v) => eval_scan_rec(lines, i + 1, Some(v), mate),
                                    None => eval_scan_rec(lines, i + 1, cp, mate),
                                }
                            } else if eq_str(toks[si + 1].as_str(), "mate") {
                                match crate::text::parse_i64(toks[si + 2].as_str()) {
                                    Some(v) => eval_scan_rec(lines, i + 1, cp, Some(v)),
                                    None => eval_scan_rec(lines, i + 1, cp, mate),
                                }
                            } else {
                                eval_scan_rec(lines, i + 1, cp, mate)
                            }
                        } else {
                            eval_scan_rec(lines, i + 1, cp, mate)
                        }
                    },
                    None => eval_scan_rec(lines, i + 1, cp, mate),
                }
            } else {
                eval_scan_rec(lines, i + 1, cp, mate)
            }
        }
    }
}

/// Reads the single-line evaluation out of captured engine lines.
pub fn evaluation_from_lines(lines: &Vec<String>, white_to_move: bool) -> (r: String)
    ensures
        r@ == spec_evaluation(lines.deep_view(), white_to_move),
{
    let (cp, mate) = eval_scan_rec(lines, 0, None, None);
    match mate {
        Some(m) => eval_mate_by_value(m),
        None => match cp {
            Some(v) => eval_cp_string(v, white_to_move),
            None => {
                proof {
                    reveal_strlit("0");
                }
                let s = "0".to_owned();
                proof {
                    assert(s@ =~= seq!['0']);
                }
                s
            },
        },
    }
}

/// The last well-formed win/draw/loss triple seen among info lines before
/// the first `bestmove` line: the three tokens after `wdl`, each a number a
/// machine word can hold.
pub open spec fn spec_wdl_scan(lines: Seq<Seq<char>>, i: int, acc: (usize, usize, usize)) -> (
    usize,
    usize,
    usize,
)
    decreases lines.len() - i when 0 <= i <= lines.len()
{
    if i >= lines.len() {
        acc
    } else {
        let toks = spec_tokens(lines[i]);
        if toks.len() == 0 {
            spec_wdl_scan(lines, i + 1, acc)
        } else if toks[0] == "bestmove"@ {
            acc
        } else if toks[0] == "info"@ {
            let wi = first_index_from(toks, "wdl"@, 0);
            if wi >= 0 && wi + 3 < toks.len() {
                match (
                    crate::text::spec_parse_uint(toks[wi + 1]),
                    crate::text::spec_parse_uint(toks[wi + 2]),
                    crate::text::spec_parse_uint(toks[wi + 3]),
                ) {
                    (Some(a), Some(b), Some(c)) => if a <= usize::MAX && b <= usize::MAX && c
                        <= usize::MAX {
                        spec_wdl_scan(lines, i + 1, (a as usize, b as usize, c as usize))
                    } else {
                        spec_wdl_scan(lines, i + 1, acc)
                    },
                    _ => spec_wdl_scan(lines, i + 1, acc),
                }
            } else {
                spec_wdl_scan(lines, i + 1, acc)
            }
        } else {
            spec_wdl_scan(lines, i + 1, acc)
        }
    }
}

fn parse_usize_token(t: &str) -> (r: Option<usize>)
    ensures
        match r {
            Some(v) => crate::text::spec_parse_uint(t@) == Some(v as int),
            None => crate::text::spec_parse_uint(t@) is None || (crate::text::spec_parse_uint(t@)
                matches Some(v) && v > usize::MAX),
        },
{
    match crate::text::parse_u64(t) {
        Some(v) => {
            if v <= usize::MAX as u64 {
                Some(v as usize)
            } else {
                None
            }
        },
        None => None,
    }
}

fn wdl_scan_rec(lines: &Vec<String>, i: usize, acc: (usize, usize, usize)) -> (r: (
    usize,
    usize,
    usize,
))
    requires
        i <= lines@.len(),
    ensures
        r == spec_wdl_scan(lines.deep_view(), i as int, acc),
    decreases lines@.len() - i,
{
    if i >= lines.len() {
        acc
    } else {
        proof {
            assert(lines.deep_view()[i as int] == lines@[i as int]@);
        }
        let toks = tokenize(lines[i].as_str());
        if toks.len() == 0 {
            wdl_scan_rec(lines, i + 1, acc)
        } else {
            proof {
                assert(toks.deep_view()[0] == toks@[0]@);
            }
            if eq_str(toks[0].as_str(), "bestmove") {
                acc
            } else if eq_str(toks[0].as_str(), "info") {
                match token_position_from(&toks, "wdl", 0) {
                    Some(wi) => {
                        if toks.len() - wi > 3 {
                            proof {
                                assert(toks.deep_view()[wi as int + 1] == toks@[wi as int + 1]@);
                                assert(toks.deep_view()[wi as int + 2] == toks@[wi as int + 2]@);
                                assert(toks.deep_view()[wi as int + 3] == toks@[wi as int + 3]@);
                            }
                            let a = parse_usize_token(toks[wi + 1].as_str());
                            let b = parse_usize_token(toks[wi + 2].as_str());
                            let c = parse_usize_token(toks[wi + 3].as_str());
                            match (a, b, c) {
                                (Some(x), Some(y), Some(z)) => wdl_scan_rec(
                                    lines,
                                    i + 1,
                                    (x, y, z),
                                ),
                                _ => wdl_scan_rec(lines, i + 1, acc),
                            }
                        } else {
                            wdl_scan_rec(lines, i + 1, acc)
                        }
                    },
                    None => wdl_scan_rec(lines, i + 1, acc),
                }
            } else {
                wdl_scan_rec(lines, i + 1, acc)
            }
        }
    }
}

/// Reads the win/draw/loss triple out of captured engine lines; all zeros
/// where no info line carried one.
pub fn wdl_from_lines(lines: &Vec<String>) -> (r: (usize, usize, usize))
    ensures
        r == spec_wdl_scan(lines.deep_view(), 0, (0usize, 0usize, 0usize)),
{
    wdl_scan_rec(lines, 0, (0, 0, 0))
}

/// The value the first entry with key `k` at or after `i` holds, if any.
pub open spec fn list_get_from(es: Seq<(Seq<char>, Seq<char>)>, k: Seq<char>, i: int) -> Option<
    Seq<char>,
>
    decreases es.len() - i when 0 <= i <= es.len()
{
    if i >= es.len() {
        None
    } else if es[i].0 == k {
        Some(es[i].1)
    } else {
        list_get_from(es, k, i + 1)
    }
}

/// The value the first entry with key `k` holds, if any.
pub open spec fn list_get(es: Seq<(Seq<char>, Seq<char>)>, k: Seq<char>) -> Option<Seq<char>> {
    list_get_from(es, k, 0)
}

/// The entry list after storing `v` under `k`: the first entry with that key
/// is overwritten in place, or the pair is appended where the key is new.
pub open spec fn spec_store_from(
    es: Seq<(Seq<char>, Seq<char>)>,
    k: Seq<char>,
    v: Seq<char>,
    i: int,
) -> Seq<(Seq<char>, Seq<char>)>
    decreases es.len() - i when 0 <= i <= es.len()
{
    if i >= es.len() {
        es.push((k, v))
    } else if es[i].0 == k {
        es.update(i, (k, v))
    } else {
        spec_store_from(es, k, v, i + 1)
    }
}

pub open spec fn spec_store(
    es: Seq<(Seq<char>, Seq<char>)>,
    k: Seq<char>,
    v: Seq<char>,
) -> Seq<(Seq<char>, Seq<char>)> {
    spec_store_from(es, k, v, 0)
}

/// The entry list with every entry keyed `k` dropped.
pub open spec fn spec_drop_key(es: Seq<(Seq<char>, Seq<char>)>, k: Seq<char>) -> Seq<
    (Seq<char>, Seq<char>),
>
    decreases es.len(),
{
    if es.len() == 0 {
        Seq::empty()
    } else if es[0].0 == k {
        spec_drop_key(es.drop_first(), k)
    } else {
        seq![es[0]] + spec_drop_key(es.drop_first(), k)
    }
}

/// The engine's option table: name-value pairs in insertion order, looked up
/// by first match.
pub struct StringMap {
    pub entries: Vec<(String, String)>,
}

impl StringMap {
    /// The entries as pairs of character sequences.
    pub open spec fn spec_entries(&self) -> Seq<(Seq<char>, Seq<char>)> {
        self.entries@.map_values(|e: (String, String)| (e.0@, e.1@))
    }

    /// An empty option table.
    pub fn new() -> (r: Self)
        ensures
            r.spec_entries() == Seq::<(Seq<char>, Seq<char>)>::empty(),
    {
        let r = StringMap { entries: Vec::new() };
        proof {
            assert(r.spec_entries() =~= Seq::<(Seq<char>, Seq<char>)>::empty());
        }
        r
    }

    fn key_position_from(&self, k: &str, i: usize) -> (r: Option<usize>)
        requires
            i <= self.entries@.len(),
        ensures
            match r {
                Some(p) => i <= p < self.entries@.len() && self.spec_entries()[p as int].0 == k@
                    && (forall|m: int|
                    i <= m < p ==> (#[trigger] self.spec_entries()[m]).0 != k@),
                None => forall|m: int|
                    i <= m < self.entries@.len() ==> (#[trigger] self.spec_entries()[m]).0 != k@,
            },
        decreases self.entries@.len() - i,
    {
        if i >= self.entries.len() {
            None
        } else {
            if eq_str(self.entries[i].0.as_str(), k) {
                Some(i)
            } else {
                match self.key_position_from(k, i + 1) {
                    Some(p) => Some(p),
                    None => None,
                }
            }
        }
    }

    /// Looks up the value stored under `k`.
    pub fn get(&self, k: &str) -> (r: Option<String>)
        ensures
            match r {
                Some(v) => list_get(self.spec_entries(), k@) == Some(v@),
                None => list_get(self.spec_entries(), k@) is None,
            },
    {
        match self.key_position_from(k, 0) {
            Some(p) => {
                proof {
                    lemma_list_get_at(self.spec_entries(), k@, 0, p as int);
                }
                Some(self.entries[p].1.clone())
            },
            None => {
                proof {
                    lemma_list_get_missing(self.spec_entries(), k@, 0);
                }
                None
            },
        }
    }

    /// Whether any value is stored under `k`.
    pub fn contains_key(&self, k: &str) -> (r: bool)
        ensures
            r == (list_get(self.spec_entries(), k@) is Some),
    {
        match self.get(k) {
            Some(_) => true,
            None => false,
        }
    }

    /// How many entries the table holds.
    pub fn len(&self) -> (r: usize)
        ensures
            r == self.spec_entries().len(),
    {
        self.entries.len()
    }

    /// Stores `v` under `k`: overwrites the first entry with that key, or
    /// appends the pair where the key is new.
    pub fn store(&mut self, k: &str, v: &str)
        ensures
            final(self).spec_entries() == spec_store(old(self).spec_entries(), k@, v@),
    {
        let ghost es = self.spec_entries();
        match self.key_position_from(k, 0) {
            Some(p) => {
                self.entries.remove(p);
                self.entries.insert(p, (k.to_owned(), v.to_owned()));
                proof {
                    lemma_store_at(es, k@, v@, 0, p as int);
                    assert(self.spec_entries() =~~= es.update(p as int, (k@, v@)));
                }
            },
            None => {
                self.entries.push((k.to_owned(), v.to_owned()));
                proof {
                    lemma_store_missing(es, k@, v@, 0);
                    assert(self.spec_entries() =~~= es.push((k@, v@)));
                }
            },
        }
    }
}

proof fn lemma_list_get_at(es: Seq<(Seq<char>, Seq<char>)>, k: Seq<char>, j: int, p: int)
    requires
        0 <= j <= p < es.len(),
        es[p].0 == k,
        forall|m: int| j <= m < p ==> (#[trigger] es[m]).0 != k,
    ensures
        list_get_from(es, k, j) == Some(es[p].1),
    decreases p - j,
{
    if j < p {
        lemma_list_get_at(es, k, j + 1, p);
    }
}

proof fn lemma_list_get_missing(es: Seq<(Seq<char>, Seq<char>)>, k: Seq<char>, j: int)
    requires
        0 <= j <= es.len(),
        forall|m: int| j <= m < es.len() ==> (#[trigger] es[m]).0 != k,
    ensures
        list_get_from(es, k, j) is None,
    decreases es.len() - j,
{
    if j < es.len() {
        lemma_list_get_missing(es, k, j + 1);
    }
}

proof fn lemma_store_at(es: Seq<(Seq<char>, Seq<char>)>, k: Seq<char>, v: Seq<char>, j: int, p: int)
    requires
        0 <= j <= p < es.len(),
        es[p].0 == k,
        forall|m: int| j <= m < p ==> (#[trigger] es[m]).0 != k,
    ensures
        spec_store_from(es, k, v, j) == es.update(p, (k, v)),
    decreases p - j,
{
    if j < p {
        lemma_store_at(es, k, v, j + 1, p);
    }
}

proof fn lemma_store_missing(es: Seq<(Seq<char>, Seq<char>)>, k: Seq<char>, v: Seq<char>, j: int)
    requires
        0 <= j <= es.len(),
        forall|m: int| j <= m < es.len() ==> (#[trigger] es[m]).0 != k,
    ensures
        spec_store_from(es, k, v, j) == es.push((k, v)),
    decreases es.len() - j,
{
    if j < es.len() {
        lemma_store_missing(es, k, v, j + 1);
    }
}

/// Name-value pairs as pairs of character sequences.
pub open spec fn deep_pairs(s: Seq<(String, String)>) -> Seq<(Seq<char>, Seq<char>)> {
    s.map_values(|e: (String, String)| (e.0@, e.1@))
}

fn pairs_get_from(v: &Vec<(String, String)>, k: &str, i: usize) -> (r: Option<String>)
    requires
        i <= v@.len(),
    ensures
        match r {
            Some(val) => list_get_from(deep_pairs(v@), k@, i as int) == Some(val@),
            None => list_get_from(deep_pairs(v@), k@, i as int) is None,
        },
    decreases v@.len() - i,
{
    if i >= v.len() {
        None
    } else {
        if eq_str(v[i].0.as_str(), k) {
            Some(v[i].1.clone())
        } else {
            pairs_get_from(v, k, i + 1)
        }
    }
}

/// The entry list with every entry keyed `k` dropped, from position `i` on.
pub open spec fn spec_drop_key_from(
    es: Seq<(Seq<char>, Seq<char>)>,
    k: Seq<char>,
    i: int,
) -> Seq<(Seq<char>, Seq<char>)>
    decreases es.len() - i when 0 <= i <= es.len()
{
    if i >= es.len() {
        Seq::empty()
    } else if es[i].0 == k {
        spec_drop_key_from(es, k, i + 1)
    } else {
        seq![es[i]] + spec_drop_key_from(es, k, i + 1)
    }
}

fn pairs_drop_key_from(v: &Vec<(String, String)>, k: &str, i: usize) -> (r: Vec<(String, String)>)
    requires
        i <= v@.len(),
    ensures
        deep_pairs(r@) == spec_drop_key_from(deep_pairs(v@), k@, i as int),
    decreases v@.len() - i,
{
    if i >= v.len() {
        let r: Vec<(String, String)> = Vec::new();
        proof {
            assert(deep_pairs(r@) =~= spec_drop_key_from(deep_pairs(v@), k@, i as int));
        }
        r
    } else {
        if eq_str(v[i].0.as_str(), k) {
            pairs_drop_key_from(v, k, i + 1)
        } else {
            let mut rest = pairs_drop_key_from(v, k, i + 1);
            let ghost tail = deep_pairs(rest@);
            let ghost tailv = rest@;
            rest.insert(0, (v[i].0.clone(), v[i].1.clone()));
            proof {
                let want = seq![deep_pairs(v@)[i as int]] + tail;
                assert forall|q: int| 0 <= q < deep_pairs(rest@).len() implies deep_pairs(rest@)[q]
                    == want[q] by {
                    if q > 0 {
                        assert(rest@[q] == tailv[q - 1]);
                    }
                }
                assert(deep_pairs(rest@) =~= want);
            }
            rest
        }
    }
}

/// The option pairs the driver actually applies for a requested update:
/// where exactly one of `Skill Level` and `UCI_Elo` is given and
/// `UCI_LimitStrength` is not, the strength limit is forced to match the
/// given one (`false` for `Skill Level`, `true` for `UCI_Elo`); and a given
/// `Threads` moves to the end, a given `Hash` just after it.
pub open spec fn spec_effective(new: Seq<(Seq<char>, Seq<char>)>) -> Seq<(Seq<char>, Seq<char>)> {
    let has_skill = list_get(new, "Skill Level"@) is Some;
    let has_elo = list_get(new, "UCI_Elo"@) is Some;
    let has_lim = list_get(new, "UCI_LimitStrength"@) is Some;
    let base = if (has_skill != has_elo) && !has_lim {
        new.push(
            (
                "UCI_LimitStrength"@,
                if has_skill {
                    "false"@
                } else {
                    "true"@
                },
            ),
        )
    } else {
        new
    };
    match list_get(base, "Threads"@) {
        Some(tv) => {
            let nt = spec_drop_key_from(base, "Threads"@, 0);
            match list_get(nt, "Hash"@) {
                Some(hv) => spec_drop_key_from(nt, "Hash"@, 0).push(("Threads"@, tv)).push(
                    ("Hash"@, hv),
                ),
                None => nt.push(("Threads"@, tv)),
            }
        },
        None => base,
    }
}

fn pairs_clone(v: &Vec<(String, String)>) -> (r: Vec<(String, String)>)
    ensures
        deep_pairs(r@) == deep_pairs(v@),
{
    let mut out: Vec<(String, String)> = Vec::new();
    let mut i: usize = 0;
    while i < v.len()
        invariant
            i <= v@.len(),
            out@.len() == i,
            forall|q: int|
                0 <= q < i ==> #[trigger] deep_pairs(out@)[q] == deep_pairs(v@)[q],
        decreases v@.len() - i,
    {
        let ghost outv = out@;
        out.push((v[i].0.clone(), v[i].1.clone()));
        proof {
            assert forall|q: int| 0 <= q < i + 1 implies #[trigger] deep_pairs(out@)[q]
                == deep_pairs(v@)[q] by {
                if q < i {
                    assert(out@[q] == outv[q]);
                    assert(deep_pairs(outv)[q] == deep_pairs(v@)[q]);
                }
            }
        }
        i = i + 1;
    }
    proof {
        assert(deep_pairs(out@) =~= deep_pairs(v@));
    }
    out
}

fn push_pair(v: &mut Vec<(String, String)>, k: String, val: String)
    ensures
        deep_pairs(final(v)@) == deep_pairs(old(v)@).push((k@, val@)),
{
    let ghost pre = v@;
    let ghost kk = k@;
    let ghost vv = val@;
    v.push((k, val));
    proof {
        assert forall|q: int| 0 <= q < deep_pairs(v@).len() implies deep_pairs(v@)[q] == deep_pairs(
            pre,
        ).push((kk, vv))[q] by {
            if q < pre.len() {
                assert(v@[q] == pre[q]);
            }
        }
        assert(deep_pairs(v@) =~= deep_pairs(pre).push((kk, vv)));
    }
}

/// Builds the option pairs actually applied for a requested update,
/// honouring the strength-limit rule and the `Threads`-before-`Hash` order.
pub fn effective_params(new_params: &Vec<(String, String)>) -> (r: Vec<(String, String)>)
    ensures
        deep_pairs(r@) == spec_effective(deep_pairs(new_params@)),
{
    let has_skill = match pairs_get_from(new_params, "Skill Level", 0) {
        Some(_) => true,
        None => false,
    };
    let has_elo = match pairs_get_from(new_params, "UCI_Elo", 0) {
        Some(_) => true,
        None => false,
    };
    let has_lim = match pairs_get_from(new_params, "UCI_LimitStrength", 0) {
        Some(_) => true,
        None => false,
    };
    let mut base = pairs_clone(new_params);
    if (has_skill != has_elo) && !has_lim {
        let lim_val = if has_skill {
            "false".to_owned()
        } else {
            "true".to_owned()
        };
        push_pair(&mut base, "UCI_LimitStrength".to_owned(), lim_val);
    }
    match pairs_get_from(&base, "Threads", 0) {
        Some(tv) => {
            let nt = pairs_drop_key_from(&base, "Threads", 0);
            match pairs_get_from(&nt, "Hash", 0) {
                Some(hv) => {
                    let mut out = pairs_drop_key_from(&nt, "Hash", 0);
                    push_pair(&mut out, "Threads".to_owned(), tv);
                    push_pair(&mut out, "Hash".to_owned(), hv);
                    out
                },
                None => {
                    let mut out = nt;
                    push_pair(&mut out, "Threads".to_owned(), tv);
                    out
                },
            }
        },
        None => base,
    }
}

/// The option table after applying the pairs from position `j` on, in
/// order, each by first-match store.
pub open spec fn spec_store_all(
    acc: Seq<(Seq<char>, Seq<char>)>,
    eff: Seq<(Seq<char>, Seq<char>)>,
    j: int,
) -> Seq<(Seq<char>, Seq<char>)>
    decreases eff.len() - j when 0 <= j <= eff.len()
{
    if j >= eff.len() {
        acc
    } else {
        spec_store_all(spec_store(acc, eff[j].0, eff[j].1), eff, j + 1)
    }
}

/// The line-protocol capability the driver speaks through: writing one
/// command line, reading one answer line, and reading lines up to one that
/// matches a stop pattern. Implementations wrap the engine subprocess; test
/// doubles replay canned output.
pub trait Process {
    /// Sends one command line.
    fn write_line(&mut self, msg: &str);

    /// Reads one answer line, trimmed.
    fn read_line(&mut self) -> String;

    /// Reads lines up to and including the first that matches the stop
    /// pattern.
    fn lines(&mut self, stop_pattern: &Pattern) -> Vec<String>;

    /// Reads lines up to the first that matches the stop pattern and hands
    /// back the last one read.
    fn desired_line(&mut self, stop_pattern: &Pattern) -> String;

    /// Whether the engine process is still alive.
    fn is_running(&mut self) -> bool;
}

/// A text of any length but four cannot be the `quit` command.
proof fn lemma_not_quit(s: Seq<char>)
    requires
        s.len() != 4,
    ensures
        s != "quit"@,
{
    reveal_strlit("quit");
    assert("quit"@.len() == 4);
}

/// The engine driver: owns the process capability, the option table, the
/// configured search depth, the last diagnostic info line, and the engine's
/// version banner.
pub struct Stockfish<P: Process> {
    pub proc: P,
    pub parameters: StringMap,
    pub depth: u8,
    pub info: String,
    pub quit_sent: bool,
    pub version: String,
}

impl<P: Process> Stockfish<P> {
    /// Whether the option table knows key `k`.
    pub open spec fn knows(&self, k: Seq<char>) -> bool {
        list_get(self.parameters.spec_entries(), k) is Some
    }

    /// Takes ownership of a process already speaking UCI: reads the version
    /// banner, sends `uci`, and discards one line.
    pub fn new_with_process(proc: P, depth: u8) -> (r: Self)
        ensures
            r.depth == depth,
            r.parameters.spec_entries() == Seq::<(Seq<char>, Seq<char>)>::empty(),
            r.info@ == Seq::<char>::empty(),
            !r.quit_sent,
    {
        let mut s = Stockfish {
            proc,
            parameters: StringMap::new(),
            depth,
            info: String::new(),
            quit_sent: false,
            version: String::new(),
        };
        let v = s.read_line();
        s.version = v;
        proof {
            reveal_strlit("uci");
            assert("uci"@.len() == 3);
            lemma_not_quit("uci"@);
        }
        s._put("uci");
        let _ = s.read_line();
        s
    }

    /// Reads one line from the engine.
    pub fn read_line(&mut self) -> (r: String)
        ensures
            final(self).parameters == old(self).parameters,
            final(self).depth == old(self).depth,
            final(self).info == old(self).info,
            final(self).quit_sent == old(self).quit_sent,
            final(self).version == old(self).version,
    {
        self.proc.read_line()
    }

    /// Sends one command if the engine still runs or `quit` was already
    /// sent; remembers when `quit` goes out.
    pub fn _put(&mut self, cmd: &str)
        ensures
            final(self).parameters == old(self).parameters,
            final(self).depth == old(self).depth,
            final(self).info == old(self).info,
            final(self).version == old(self).version,
            cmd@ != "quit"@ ==> final(self).quit_sent == old(self).quit_sent,
            old(self).quit_sent ==> final(self).quit_sent,
            final(self).quit_sent ==> old(self).quit_sent || cmd@ == "quit"@,
    {
        let running = self.proc.is_running();
        if !running && !self.quit_sent {
            return;
        }
        self.proc.write_line(cmd);
        if eq_str(cmd, "quit") {
            self.quit_sent = true;
        }
    }

    /// Sends the configured-depth search command.
    pub fn _go(&mut self)
        ensures
            final(self).parameters == old(self).parameters,
            final(self).depth == old(self).depth,
            final(self).info == old(self).info,
            final(self).version == old(self).version,
            final(self).quit_sent == old(self).quit_sent,
    {
        let mut cmd = "go depth ".to_owned();
        let d = u64_to_string(self.depth as u64);
        cmd.append(d.as_str());
        proof {
            reveal_strlit("go depth ");
            assert("go depth "@.len() == 9);
            assert(cmd@.len() >= 10);
            lemma_not_quit(cmd@);
        }
        self._put(cmd.as_str());
    }

    /// Sends a timed search command.
    pub fn go_time(&mut self, time: usize)
        ensures
            final(self).parameters == old(self).parameters,
            final(self).depth == old(self).depth,
            final(self).info == old(self).info,
            final(self).version == old(self).version,
            final(self).quit_sent == old(self).quit_sent,
    {
        let mut cmd = "go movetime ".to_owned();
        let d = u64_to_string(time as u64);
        cmd.append(d.as_str());
        proof {
            reveal_strlit("go movetime ");
            assert("go movetime "@.len() == 12);
            assert(cmd@.len() >= 13);
            lemma_not_quit(cmd@);
        }
        self._put(cmd.as_str());
    }

    /// Sends `isready` and reads lines until the engine answers `readyok`,
    /// so that exactly one `readyok` is consumed per handshake. The wait is
    /// bounded: after a million-odd silent lines the handshake is abandoned,
    /// which is what lets the loop provably end.
    pub fn is_ready(&mut self)
        ensures
            final(self).parameters == old(self).parameters,
            final(self).depth == old(self).depth,
            final(self).info == old(self).info,
            final(self).version == old(self).version,
            final(self).quit_sent == old(self).quit_sent,
    {
        proof {
            reveal_strlit("isready");
            assert("isready"@.len() == 7);
            lemma_not_quit("isready"@);
        }
        self._put("isready");
        let mut tries: usize = 0;
        while tries < 1048576
            invariant
                self.parameters == old(self).parameters,
                self.depth == old(self).depth,
                self.info == old(self).info,
                self.version == old(self).version,
                self.quit_sent == old(self).quit_sent,
            decreases 1048576 - tries,
        {
            let line = self.read_line();
            if eq_str(line.as_str(), "readyok") {
                return;
            }
            tries = tries + 1;
        }
    }

    /// Sends `ucinewgame` if asked, completes a ready handshake, and clears
    /// the diagnostic info line.
    pub fn prepare_for_new_position(&mut self, send_token: bool)
        ensures
            final(self).parameters == old(self).parameters,
            final(self).depth == old(self).depth,
            final(self).info@ == Seq::<char>::empty(),
            final(self).version == old(self).version,
            final(self).quit_sent == old(self).quit_sent,
    {
        if send_token {
            proof {
                reveal_strlit("ucinewgame");
                assert("ucinewgame"@.len() == 10);
                lemma_not_quit("ucinewgame"@);
            }
            self._put("ucinewgame");
        }
        self.is_ready();
        self.info = String::new();
    }

    /// Asks the engine to print its state and reads the FEN line out of the
    /// answer.
    pub fn get_fen_position(&mut self) -> (r: Result<String, CheatessError>)
        ensures
            final(self).parameters == old(self).parameters,
            final(self).depth == old(self).depth,
            final(self).info == old(self).info,
            final(self).version == old(self).version,
            final(self).quit_sent == old(self).quit_sent,
            r matches Err(e) ==> e == CheatessError::EngineProtocol,
    {
        match Pattern::compile("Fen") {
            Some(pat) => {
                proof {
                    reveal_strlit("d");
                    assert("d"@.len() == 1);
                    lemma_not_quit("d"@);
                }
                self._put("d");
                let line = self.proc.desired_line(&pat);
                parse_fen_line(line.as_str())
            },
            None => Err(CheatessError::EngineProtocol),
        }
    }

    /// Completes a handshake (optionally opening a new game) and sends the
    /// position as a FEN.
    pub fn set_fen_position(&mut self, fen: &str, token: bool)
        ensures
            final(self).parameters == old(self).parameters,
            final(self).depth == old(self).depth,
            final(self).info@ == Seq::<char>::empty(),
            final(self).version == old(self).version,
            final(self).quit_sent == old(self).quit_sent,
    {
        self.prepare_for_new_position(token);
        let mut cmd = "position fen ".to_owned();
        cmd.append(fen);
        proof {
            reveal_strlit("position fen ");
            assert("position fen "@.len() == 13);
            assert(cmd@.len() >= 13);
            lemma_not_quit(cmd@);
        }
        self._put(cmd.as_str());
    }

    /// Reads lines until the engine's `bestmove` answer and returns the
    /// move it names, or nothing for `(none)`; the line before the answer is
    /// kept as the diagnostic info line.
    pub fn get_move_from_proc(&mut self) -> (r: Option<String>)
        ensures
            final(self).parameters == old(self).parameters,
            final(self).depth == old(self).depth,
            final(self).version == old(self).version,
            final(self).quit_sent == old(self).quit_sent,
            match r {
                Some(m) => m@ != "(none)"@,
                None => true,
            },
    {
        match Pattern::compile("bestmove") {
            Some(pat) => {
                let lines = self.proc.lines(&pat);
                match parse_bestmove_lines(&lines) {
                    Some(p) => {
                        let (mv, inf) = p;
                        self.info = inf;
                        mv
                    },
                    None => None,
                }
            },
            None => None,
        }
    }

    /// Starts a configured-depth search and returns the engine's best move,
    /// or nothing where the engine answers `(none)` (the game is over).
    pub fn get_best_move(&mut self) -> (r: Option<String>)
        ensures
            final(self).parameters == old(self).parameters,
            final(self).depth == old(self).depth,
            final(self).version == old(self).version,
            final(self).quit_sent == old(self).quit_sent,
            match r {
                Some(m) => m@ != "(none)"@,
                None => true,
            },
    {
        self._go();
        self.get_move_from_proc()
    }

    /// Asks the engine to search one move only; a `(none)` answer means the
    /// move is illegal in the current position. The diagnostic info line is
    /// restored afterwards.
    pub fn is_correct_move(&mut self, mv: &str) -> (r: bool)
        ensures
            final(self).parameters == old(self).parameters,
            final(self).depth == old(self).depth,
            final(self).info@ == old(self).info@,
            final(self).version == old(self).version,
            final(self).quit_sent == old(self).quit_sent,
    {
        let old_info = self.info.clone();
        let mut cmd = "go depth 1 searchmoves ".to_owned();
        cmd.append(mv);
        proof {
            reveal_strlit("go depth 1 searchmoves ");
            assert("go depth 1 searchmoves "@.len() == 23);
            assert(cmd@.len() >= 23);
            lemma_not_quit(cmd@);
        }
        self._put(cmd.as_str());
        let r = match self.get_move_from_proc() {
            Some(_) => true,
            None => false,
        };
        self.info = old_info;
        r
    }

    /// Plays the given moves: each is checked against the engine first (an
    /// illegal one ends the game fatally), then the current FEN is fetched
    /// and the position re-sent with the move appended.
    pub fn make_move(&mut self, moves: Vec<String>) -> (r: Result<(), CheatessError>)
        ensures
            final(self).parameters == old(self).parameters,
            final(self).depth == old(self).depth,
            final(self).version == old(self).version,
            final(self).quit_sent == old(self).quit_sent,
            moves@.len() == 0 ==> final(self).info == old(self).info,
            moves@.len() > 0 ==> final(self).info@ == Seq::<char>::empty(),
            r matches Err(e) ==> e == CheatessError::IllegalMove || e
                == CheatessError::EngineProtocol,
    {
        if moves.len() == 0 {
            return Ok(());
        }
        self.prepare_for_new_position(false);
        let mut i: usize = 0;
        while i < moves.len()
            invariant
                i <= moves@.len(),
                self.parameters == old(self).parameters,
                self.depth == old(self).depth,
                self.version == old(self).version,
                self.quit_sent == old(self).quit_sent,
                self.info@ == Seq::<char>::empty(),
            decreases moves@.len() - i,
        {
            if !self.is_correct_move(moves[i].as_str()) {
                return Err(CheatessError::IllegalMove);
            }
            let pos = match self.get_fen_position() {
                Ok(p) => p,
                Err(e) => {
                    return Err(e);
                },
            };
            let mut cmd = "position fen ".to_owned();
            cmd.append(pos.as_str());
            cmd.append(" moves ");
            cmd.append(moves[i].as_str());
            proof {
                reveal_strlit("position fen ");
                assert("position fen "@.len() == 13);
                assert(cmd@.len() >= 13);
                lemma_not_quit(cmd@);
            }
            self._put(cmd.as_str());
            i = i + 1;
        }
        Ok(())
    }

    /// Applies the effective option pairs in order: each is sent as a
    /// `setoption` command followed by a ready handshake and recorded in
    /// the option table; then the current position is fetched and re-sent.
    /// Updates must name known options unless the table is still empty.
    pub fn update_params(&mut self, new_params: &Vec<(String, String)>) -> (r: Result<
        (),
        CheatessError,
    >)
        requires
            old(self).parameters.spec_entries().len() == 0 || forall|j: int|
                0 <= j < new_params@.len() ==> old(self).knows(
                    (#[trigger] deep_pairs(new_params@)[j]).0,
                ),
        ensures
            final(self).depth == old(self).depth,
            final(self).version == old(self).version,
            final(self).quit_sent == old(self).quit_sent,
            final(self).parameters.spec_entries() == spec_store_all(
                old(self).parameters.spec_entries(),
                spec_effective(deep_pairs(new_params@)),
                0,
            ),
            r matches Err(e) ==> e == CheatessError::EngineProtocol,
    {
        let eff = effective_params(new_params);
        let ghost effd = spec_effective(deep_pairs(new_params@));
        let mut j: usize = 0;
        while j < eff.len()
            invariant
                deep_pairs(eff@) == effd,
                j <= eff@.len(),
                self.depth == old(self).depth,
                self.version == old(self).version,
                self.quit_sent == old(self).quit_sent,
                spec_store_all(self.parameters.spec_entries(), effd, j as int) == spec_store_all(
                    old(self).parameters.spec_entries(),
                    effd,
                    0,
                ),
            decreases eff@.len() - j,
        {
            let mut cmd = "setoption name ".to_owned();
            cmd.append(eff[j].0.as_str());
            cmd.append(" value ");
            cmd.append(eff[j].1.as_str());
            proof {
                reveal_strlit("setoption name ");
                assert("setoption name "@.len() == 15);
                assert(cmd@.len() >= 15);
                lemma_not_quit(cmd@);
            }
            self._put(cmd.as_str());
            proof {
                assert(deep_pairs(eff@)[j as int] == (eff@[j as int].0@, eff@[j as int].1@));
            }
            self.parameters.store(eff[j].0.as_str(), eff[j].1.as_str());
            self.is_ready();
            j = j + 1;
        }
        let pos = match self.get_fen_position() {
            Ok(p) => p,
            Err(e) => {
                return Err(e);
            },
        };
        self.set_fen_position(pos.as_str(), false);
        Ok(())
    }

    /// Applies the default option table: debug log off, pondering off, the
    /// caller's hash size, variation count, skill level and Elo, a small
    /// move overhead, standard chess, the strength limit on, and win/draw/
    /// loss reporting on.
    pub fn set_config(&mut self, elo: &str, skill: &str, hash: &str, multi_lines: &str) -> (r:
        Result<(), CheatessError>)
        requires
            old(self).parameters.spec_entries().len() == 0 || (old(self).knows("Debug Log File"@)
                && old(self).knows("Ponder"@) && old(self).knows("Hash"@) && old(self).knows(
                "MultiPV"@,
            ) && old(self).knows("Skill Level"@) && old(self).knows("Move Overhead"@) && old(
                self,
            ).knows("UCI_Chess960"@) && old(self).knows("UCI_LimitStrength"@) && old(self).knows(
                "UCI_Elo"@,
            ) && old(self).knows("UCI_ShowWDL"@)),
        ensures
            final(self).depth == old(self).depth,
            final(self).version == old(self).version,
            final(self).quit_sent == old(self).quit_sent,
            final(self).parameters.spec_entries() == spec_store_all(
                old(self).parameters.spec_entries(),
                spec_effective(spec_default_config(elo@, skill@, hash@, multi_lines@)),
                0,
            ),
            r matches Err(e) ==> e == CheatessError::EngineProtocol,
    {
        let mut ps: Vec<(String, String)> = Vec::new();
        push_pair(&mut ps, "Debug Log File".to_owned(), "".to_owned());
        push_pair(&mut ps, "Ponder".to_owned(), "false".to_owned());
        push_pair(&mut ps, "Hash".to_owned(), hash.to_owned());
        push_pair(&mut ps, "MultiPV".to_owned(), multi_lines.to_owned());
        push_pair(&mut ps, "Skill Level".to_owned(), skill.to_owned());
        push_pair(&mut ps, "Move Overhead".to_owned(), "10".to_owned());
        push_pair(&mut ps, "UCI_Chess960".to_owned(), "false".to_owned());
        push_pair(&mut ps, "UCI_LimitStrength".to_owned(), "true".to_owned());
        push_pair(&mut ps, "UCI_Elo".to_owned(), elo.to_owned());
        push_pair(&mut ps, "UCI_ShowWDL".to_owned(), "true".to_owned());
        proof {
            assert(deep_pairs(ps@) =~= spec_default_config(elo@, skill@, hash@, multi_lines@));
            assert forall|j: int| 0 <= j < deep_pairs(ps@).len() implies (
            old(self).parameters.spec_entries().len() == 0 || old(self).knows(
                (#[trigger] deep_pairs(ps@)[j]).0,
            )) by {
                if old(self).parameters.spec_entries().len() != 0 {
                    assert(spec_default_config(elo@, skill@, hash@, multi_lines@)[j].0
                        == deep_pairs(ps@)[j].0);
                }
            }
        }
        self.update_params(&ps)
    }

    /// Turns the strength limit off and sets the skill level.
    pub fn set_skill_level(&mut self, level: usize) -> (r: Result<(), CheatessError>)
        requires
            old(self).parameters.spec_entries().len() == 0 || (old(self).knows(
                "UCI_LimitStrength"@,
            ) && old(self).knows("Skill level"@)),
        ensures
            final(self).depth == old(self).depth,
            final(self).version == old(self).version,
            final(self).quit_sent == old(self).quit_sent,
            final(self).parameters.spec_entries() == spec_store_all(
                old(self).parameters.spec_entries(),
                spec_effective(
                    seq![
                        ("UCI_LimitStrength"@, "false"@),
                        ("Skill level"@, spec_digits(level as nat)),
                    ],
                ),
                0,
            ),
            r matches Err(e) ==> e == CheatessError::EngineProtocol,
    {
        let mut ps: Vec<(String, String)> = Vec::new();
        push_pair(&mut ps, "UCI_LimitStrength".to_owned(), "false".to_owned());
        push_pair(&mut ps, "Skill level".to_owned(), u64_to_string(level as u64));
        proof {
            assert(deep_pairs(ps@) =~= seq![
                ("UCI_LimitStrength"@, "false"@),
                ("Skill level"@, spec_digits(level as nat)),
            ]);
            assert forall|j: int| 0 <= j < deep_pairs(ps@).len() implies (
            old(self).parameters.spec_entries().len() == 0 || old(self).knows(
                (#[trigger] deep_pairs(ps@)[j]).0,
            )) by {
                assert(deep_pairs(ps@)[0].0 == "UCI_LimitStrength"@);
                assert(deep_pairs(ps@)[1].0 == "Skill level"@);
            }
        }
        match self.update_params(&ps) {
            Ok(u) => Ok(u),
            Err(e) => Err(e),
        }
    }

    /// Turns the strength limit on and sets the Elo target.
    pub fn set_elo_rating(&mut self, rating: usize) -> (r: Result<(), CheatessError>)
        requires
            old(self).parameters.spec_entries().len() == 0 || (old(self).knows(
                "UCI_LimitStrength"@,
            ) && old(self).knows("UCI_Elo"@)),
        ensures
            final(self).depth == old(self).depth,
            final(self).version == old(self).version,
            final(self).quit_sent == old(self).quit_sent,
            final(self).parameters.spec_entries() == spec_store_all(
                old(self).parameters.spec_entries(),
                spec_effective(
                    seq![("UCI_LimitStrength"@, "true"@), ("UCI_Elo"@, spec_digits(rating as nat))],
                ),
                0,
            ),
            r matches Err(e) ==> e == CheatessError::EngineProtocol,
    {
        let mut ps: Vec<(String, String)> = Vec::new();
        push_pair(&mut ps, "UCI_LimitStrength".to_owned(), "true".to_owned());
        push_pair(&mut ps, "UCI_Elo".to_owned(), u64_to_string(rating as u64));
        proof {
            assert(deep_pairs(ps@) =~= seq![
                ("UCI_LimitStrength"@, "true"@),
                ("UCI_Elo"@, spec_digits(rating as nat)),
            ]);
            assert forall|j: int| 0 <= j < deep_pairs(ps@).len() implies (
            old(self).parameters.spec_entries().len() == 0 || old(self).knows(
                (#[trigger] deep_pairs(ps@)[j]).0,
            )) by {
                assert(deep_pairs(ps@)[0].0 == "UCI_LimitStrength"@);
                assert(deep_pairs(ps@)[1].0 == "UCI_Elo"@);
            }
        }
        match self.update_params(&ps) {
            Ok(u) => Ok(u),
            Err(e) => Err(e),
        }
    }

    /// Pulls one variation's evaluation and line out of captured output,
    /// matching info lines against the configured depth and the variation
    /// number.
    pub fn extract_values(&self, data: &Vec<String>, nth_line: usize, white_to_move: bool) -> (r:
        Result<(String, Vec<String>), CheatessError>)
        ensures
            match r {
                Ok(p) => spec_extract_scan(
                    spec_pv_pattern(self.depth as nat, nth_line as nat),
                    data.deep_view(),
                    data@.len() as int,
                    white_to_move,
                ) == Some((p.0@, p.1.deep_view())),
                Err(e) => e == CheatessError::EngineProtocol,
            },
    {
        let ps = pv_pattern(self.depth, nth_line as u64);
        match Pattern::compile(ps.as_str()) {
            Some(pat) => extract_from_lines(&pat, data, white_to_move),
            None => Err(CheatessError::EngineProtocol),
        }
    }

    /// Fetches the current position, re-issues it, searches at the
    /// configured depth, and extracts the requested number of principal
    /// variations; the colour sign comes from the FEN's side to move.
    pub fn summary(&mut self, search_lines: usize) -> (r: Result<Vec<Summary>, CheatessError>)
        requires
            search_lines < usize::MAX,
        ensures
            final(self).parameters == old(self).parameters,
            final(self).depth == old(self).depth,
            final(self).version == old(self).version,
            final(self).quit_sent == old(self).quit_sent,
            r matches Ok(v) ==> v@.len() == search_lines && (exists|lines: Seq<Seq<char>>, w: bool|
                #[trigger] spec_summary_matches(old(self).depth as nat, lines, w, v@)),
            r matches Err(e) ==> e == CheatessError::EngineProtocol,
    {
        let fen = match self.get_fen_position() {
            Ok(f) => f,
            Err(e) => {
                return Err(e);
            },
        };
        let white = crate::text::contains_char(fen.as_str(), 'w');
        let mut cmd = "position ".to_owned();
        cmd.append(fen.as_str());
        proof {
            reveal_strlit("position ");
            assert("position "@.len() == 9);
            assert(cmd@.len() >= 9);
            lemma_not_quit(cmd@);
        }
        self._put(cmd.as_str());
        self._go();
        let pat = match Pattern::compile("bestmove") {
            Some(p) => p,
            None => {
                return Err(CheatessError::EngineProtocol);
            },
        };
        let lines = self.proc.lines(&pat);
        let ghost gl = lines.deep_view();
        let mut out: Vec<Summary> = Vec::new();
        let mut nth: usize = 1;
        while nth <= search_lines
            invariant
                search_lines < usize::MAX,
                1 <= nth <= search_lines + 1,
                out@.len() == nth - 1,
                gl == lines.deep_view(),
                gl.len() == lines@.len(),
                self.parameters == old(self).parameters,
                self.depth == old(self).depth,
                self.version == old(self).version,
                self.quit_sent == old(self).quit_sent,
                forall|i: int|
                    0 <= i < nth - 1 ==> #[trigger] spec_extract_scan(
                        spec_pv_pattern(old(self).depth as nat, (i + 1) as nat),
                        gl,
                        gl.len() as int,
                        white,
                    ) == Some(((out@[i].eval)@, out@[i].main_line.deep_view())),
            decreases search_lines + 1 - nth,
        {
            match self.extract_values(&lines, nth, white) {
                Ok(p) => {
                    let (e, pvs) = p;
                    out.push(Summary { eval: e, main_line: pvs });
                },
                Err(e) => {
                    return Err(e);
                },
            }
            nth = nth + 1;
        }
        proof {
            assert(spec_summary_matches(old(self).depth as nat, gl, white, out@));
            assert(exists|lines: Seq<Seq<char>>, w: bool|
                #[trigger] spec_summary_matches(old(self).depth as nat, lines, w, out@));
        }
        Ok(out)
    }

    /// Fetches the current position, re-issues it, searches, and reads the
    /// single-line evaluation out of the answer; the colour sign comes from
    /// the FEN's side to move.
    pub fn get_evaluation(&mut self) -> (r: Result<String, CheatessError>)
        ensures
            final(self).parameters == old(self).parameters,
            final(self).depth == old(self).depth,
            final(self).version == old(self).version,
            final(self).quit_sent == old(self).quit_sent,
            r matches Err(e) ==> e == CheatessError::EngineProtocol,
    {
        let fen = match self.get_fen_position() {
            Ok(f) => f,
            Err(e) => {
                return Err(e);
            },
        };
        let white = crate::text::contains_char(fen.as_str(), 'w');
        let mut cmd = "position ".to_owned();
        cmd.append(fen.as_str());
        proof {
            reveal_strlit("position ");
            assert("position "@.len() == 9);
            assert(cmd@.len() >= 9);
            lemma_not_quit(cmd@);
        }
        self._put(cmd.as_str());
        self._go();
        let pat = match Pattern::compile("bestmove") {
            Some(p) => p,
            None => {
                return Err(CheatessError::EngineProtocol);
            },
        };
        let lines = self.proc.lines(&pat);
        Ok(evaluation_from_lines(&lines, white))
    }

    /// Fetches the current position, re-issues it, searches, and reads the
    /// last win/draw/loss triple out of the answer.
    pub fn get_wdl_stats(&mut self) -> (r: Result<(usize, usize, usize), CheatessError>)
        ensures
            final(self).parameters == old(self).parameters,
            final(self).depth == old(self).depth,
            final(self).version == old(self).version,
            final(self).quit_sent == old(self).quit_sent,
            r matches Err(e) ==> e == CheatessError::EngineProtocol,
    {
        let fen = match self.get_fen_position() {
            Ok(f) => f,
            Err(e) => {
                return Err(e);
            },
        };
        let mut cmd = "position ".to_owned();
        cmd.append(fen.as_str());
        proof {
            reveal_strlit("position ");
            assert("position "@.len() == 9);
            assert(cmd@.len() >= 9);
            lemma_not_quit(cmd@);
        }
        self._put(cmd.as_str());
        self._go();
        let pat = match Pattern::compile("bestmove") {
            Some(p) => p,
            None => {
                return Err(CheatessError::EngineProtocol);
            },
        };
        let lines = self.proc.lines(&pat);
        Ok(wdl_from_lines(&lines))
    }
}

/// The driver's default option table for one configuration request.
pub open spec fn spec_default_config(
    elo: Seq<char>,
    skill: Seq<char>,
    hash: Seq<char>,
    multi_lines: Seq<char>,
) -> Seq<(Seq<char>, Seq<char>)> {
    seq![
        ("Debug Log File"@, ""@),
        ("Ponder"@, "false"@),
        ("Hash"@, hash),
        ("MultiPV"@, multi_lines),
        ("Skill Level"@, skill),
        ("Move Overhead"@, "10"@),
        ("UCI_Chess960"@, "false"@),
        ("UCI_LimitStrength"@, "true"@),
        ("UCI_Elo"@, elo),
        ("UCI_ShowWDL"@, "true"@),
    ]
}

} // verus!
