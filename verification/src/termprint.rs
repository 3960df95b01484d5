//! Formatting helpers in the basic terminal palette: error, warning and
//! info lines, titles, horizontal rules, key/value blocks with wrapped
//! values, and plain-text tables.
//!
//! Each helper paints its parts through the trusted wrappers of `style`;
//! contracts name the painted pieces existentially, with the layout around
//! them exact.

use vstd::prelude::*;

pub use crate::request_ext::HttpMethod;

use crate::style::styled_as;
use crate::style::strip_ansi;
use crate::style::paint_blue;
use crate::style::paint_blue_bold;
use crate::style::paint_bright_blue_bold;
use crate::style::paint_bright_cyan;
use crate::style::paint_bright_red_bold;
use crate::style::paint_bright_yellow;
use crate::style::paint_bright_yellow_bold;
use crate::style::paint_column;
use crate::textfmt::pad_right;
use crate::textfmt::pad_right_spec;
use crate::textfmt::repeat_str;
use crate::textfmt::repeat_text;

verus! {

pub const LONG: usize = 120;

pub const MEDIUM: usize = 80;

pub const SHORT: usize = 30;

pub const SPACE: usize = 3;

pub const STD_WIDTH: usize = 20;

pub const MAX_WIDTH: usize = 120;

pub const MAX_COL_WIDTH: usize = 10;

/// The view of an optional borrowed string.
pub open spec fn opt_view(o: Option<&str>) -> Option<Seq<char>> {
    match o {
        Some(s) => Some(s@),
        None => None,
    }
}

/// The standard 256-colour terminal palette as RGB: sixteen named colours,
/// a 6x6x6 colour cube, and a grayscale ramp.
pub open spec fn index2rgb_spec(index: int) -> (u8, u8, u8) {
    if index < 16 {
        if index == 0 {
            (0u8, 0u8, 0u8)
        } else if index == 1 {
            (205u8, 0u8, 0u8)
        } else if index == 2 {
            (0u8, 205u8, 0u8)
        } else if index == 3 {
            (205u8, 205u8, 0u8)
        } else if index == 4 {
            (0u8, 0u8, 238u8)
        } else if index == 5 {
            (205u8, 0u8, 205u8)
        } else if index == 6 {
            (0u8, 205u8, 205u8)
        } else if index == 7 {
            (229u8, 229u8, 229u8)
        } else if index == 8 {
            (127u8, 127u8, 127u8)
        } else if index == 9 {
            (255u8, 0u8, 0u8)
        } else if index == 10 {
            (0u8, 255u8, 0u8)
        } else if index == 11 {
            (255u8, 255u8, 0u8)
        } else if index == 12 {
            (92u8, 92u8, 255u8)
        } else if index == 13 {
            (255u8, 0u8, 255u8)
        } else if index == 14 {
            (0u8, 255u8, 255u8)
        } else {
            (255u8, 255u8, 255u8)
        }
    } else if index < 232 {
        (
            (((index - 16) / 36 % 6) * 51) as u8,
            (((index - 16) / 6 % 6) * 51) as u8,
            (((index - 16) % 6) * 51) as u8,
        )
    } else {
        (
            ((index - 232) * 10 + 8) as u8,
            ((index - 232) * 10 + 8) as u8,
            ((index - 232) * 10 + 8) as u8,
        )
    }
}

/// The RGB triple of a 256-colour palette index.
pub fn index2rgb(index: usize) -> (rgb: (u8, u8, u8))
    requires
        index < 256,
    ensures
        rgb == index2rgb_spec(index as int),
{
    if index < 16 {
        match index {
            0 => (0, 0, 0),
            1 => (205, 0, 0),
            2 => (0, 205, 0),
            3 => (205, 205, 0),
            4 => (0, 0, 238),
            5 => (205, 0, 205),
            6 => (0, 205, 205),
            7 => (229, 229, 229),
            8 => (127, 127, 127),
            9 => (255, 0, 0),
            10 => (0, 255, 0),
            11 => (255, 255, 0),
            12 => (92, 92, 255),
            13 => (255, 0, 255),
            14 => (0, 255, 255),
            _ => (255, 255, 255),
        }
    } else if index < 232 {
        let r = (index - 16) / 36 % 6 * 51;
        let g = (index - 16) / 6 % 6 * 51;
        let b = (index - 16) % 6 * 51;
        (r as u8, g as u8, b as u8)
    } else {
        let gray = (index - 232) * 10 + 8;
        (gray as u8, gray as u8, gray as u8)
    }
}

/// `out` is a painted `ERROR` tag and message, with optional painted detail
/// and cause after a colon.
pub open spec fn error_rendered(
    message: Seq<char>,
    info_opt: Option<Seq<char>>,
    err_opt: Option<Seq<char>>,
    out: Seq<char>,
) -> bool {
    match (info_opt, err_opt) {
        (Some(i), Some(e)) => exists|st: Seq<char>, sm: Seq<char>, si: Seq<char>, se: Seq<char>|
            styled_as(st, "ERROR"@) && styled_as(sm, message) && styled_as(si, i) && styled_as(
                se,
                e,
            ) && out == st + " "@ + sm + ": "@ + si + " - "@ + se,
        (Some(i), None) => exists|st: Seq<char>, sm: Seq<char>, si: Seq<char>|
            styled_as(st, "ERROR"@) && styled_as(sm, message) && styled_as(si, i) && out == st
                + " "@ + sm + ": "@ + si,
        (None, Some(e)) => exists|st: Seq<char>, sm: Seq<char>, se: Seq<char>|
            styled_as(st, "ERROR"@) && styled_as(sm, message) && styled_as(se, e) && out == st
                + " "@ + sm + ": "@ + se,
        (None, None) => exists|st: Seq<char>, sm: Seq<char>|
            styled_as(st, "ERROR"@) && styled_as(sm, message) && out == st + " "@ + sm,
    }
}

/// An `ERROR` line: the tag and message in the error style, then the
/// optional detail and cause.
pub fn error(message: &str, info: Option<&str>, err_msg: Option<&str>) -> (r: String)
    ensures
        error_rendered(message@, opt_view(info), opt_view(err_msg), r@),
{
    let st = paint_bright_red_bold("ERROR");
    let sm = paint_bright_red_bold(message);
    let mut r = st;
    let ghost stv = r@;
    r.append(" ");
    r.append(sm.as_str());
    match (info, err_msg) {
        (Some(info_str), Some(err_str)) => {
            let si = paint_bright_red_bold(info_str);
            let se = paint_bright_red_bold(err_str);
            r.append(": ");
            r.append(si.as_str());
            r.append(" - ");
            r.append(se.as_str());
            proof {
                assert(styled_as(stv, "ERROR"@) && styled_as(sm@, message@) && styled_as(
                    si@,
                    info_str@,
                ) && styled_as(se@, err_str@) && r@ == stv + " "@ + sm@ + ": "@ + si@ + " - "@
                    + se@);
            }
        },
        (Some(info_str), None) => {
            let si = paint_bright_red_bold(info_str);
            r.append(": ");
            r.append(si.as_str());
            proof {
                assert(styled_as(stv, "ERROR"@) && styled_as(sm@, message@) && styled_as(
                    si@,
                    info_str@,
                ) && r@ == stv + " "@ + sm@ + ": "@ + si@);
            }
        },
        (None, Some(err_str)) => {
            let se = paint_bright_red_bold(err_str);
            r.append(": ");
            r.append(se.as_str());
            proof {
                assert(styled_as(stv, "ERROR"@) && styled_as(sm@, message@) && styled_as(
                    se@,
                    err_str@,
                ) && r@ == stv + " "@ + sm@ + ": "@ + se@);
            }
        },
        (None, None) => {
            proof {
                assert(styled_as(stv, "ERROR"@) && styled_as(sm@, message@) && r@ == stv + " "@
                    + sm@);
            }
        },
    }
    r
}

/// `out` is a painted bold `WARNTING` tag, a colon and the painted message.
pub open spec fn warning_rendered(message: Seq<char>, out: Seq<char>) -> bool {
    exists|sw: Seq<char>, sm: Seq<char>|
        styled_as(sw, "WARNTING"@) && styled_as(sm, message) && out == sw + ": "@ + sm
}

/// A warning line in the warning style.
pub fn warning(message: &str) -> (r: String)
    ensures
        warning_rendered(message@, r@),
{
    let sw = paint_bright_yellow_bold("WARNTING");
    let sm = paint_bright_yellow(message);
    let mut r = sw;
    let ghost swv = r@;
    r.append(": ");
    r.append(sm.as_str());
    proof {
        assert(styled_as(swv, "WARNTING"@) && styled_as(sm@, message@) && r@ == swv + ": "@ + sm@);
    }
    r
}

/// `out` is a painted key, a colon and a painted value.
pub open spec fn info_rendered(key: Seq<char>, value: Seq<char>, out: Seq<char>) -> bool {
    exists|sk: Seq<char>, sv: Seq<char>|
        styled_as(sk, key) && styled_as(sv, value) && out == sk + ": "@ + sv
}

/// A `key: value` line, the key in the info colour and the value in the
/// variable colour.
pub fn info(key: &str, value: &str) -> (r: String)
    ensures
        info_rendered(key@, value@, r@),
{
    let sk = paint_blue(key);
    let sv = paint_bright_cyan(value);
    let mut r = sk;
    let ghost skv = r@;
    r.append(": ");
    r.append(sv.as_str());
    proof {
        assert(styled_as(skv, key@) && styled_as(sv@, value@) && r@ == skv + ": "@ + sv@);
    }
    r
}

/// Appends a painted key, a painted value and a line break to `out` (with
/// no separator between key and value).
pub fn write_info(out: &mut String, key: &str, value: &str)
    ensures
        exists|sk: Seq<char>, sv: Seq<char>|
            styled_as(sk, key@) && styled_as(sv, value@) && final(out)@ == old(out)@ + sk + sv
                + "\n"@,
{
    let sk = paint_blue(key);
    let sv = paint_bright_cyan(value);
    out.append(sk.as_str());
    out.append(sv.as_str());
    out.append("\n");
}

/// A message in the info colour.
pub fn message(txt: &str) -> (r: String)
    ensures
        styled_as(r@, txt@),
{
    paint_blue(txt)
}

/// Appends a painted message and a line break to `out`.
pub fn write_message(out: &mut String, txt: &str)
    ensures
        exists|sm: Seq<char>|
            styled_as(sm, txt@) && final(out)@ == old(out)@ + sm + "\n"@,
{
    let sm = message(txt);
    out.append(sm.as_str());
    out.append("\n");
}

/// `out` is a painted bold title followed by a line break.
pub open spec fn title_rendered(msg: Seq<char>, out: Seq<char>) -> bool {
    exists|sm: Seq<char>| styled_as(sm, msg) && out == sm + "\n"@
}

/// The title in the bold title style, with a line break.
pub fn str_title(msg: &str) -> (r: String)
    ensures
        title_rendered(msg@, r@),
{
    let sm = paint_blue_bold(msg);
    let mut r = sm;
    let ghost smv = r@;
    r.append("\n");
    proof {
        assert(styled_as(smv, msg@) && r@ == smv + "\n"@);
    }
    r
}

/// Appends a title line to `out`.
pub fn write_title(out: &mut String, msg: &str)
    ensures
        exists|piece: Seq<char>|
            title_rendered(msg@, piece) && final(out)@ == old(out)@ + piece,
{
    let t = str_title(msg);
    out.append(t.as_str());
}

/// `out` is a painted rule of `length` box-drawing dashes and a line break.
pub open spec fn line_rendered(length: nat, out: Seq<char>) -> bool {
    exists|sl: Seq<char>|
        styled_as(sl, repeat_text("─"@, length)) && out == sl + "\n"@
}

/// A horizontal rule of `length` dashes in the rule style.
pub fn line(length: usize) -> (r: String)
    ensures
        line_rendered(length as nat, r@),
{
    let t = repeat_str("─", length);
    let sl = paint_bright_blue_bold(t.as_str());
    let mut r = sl;
    let ghost slv = r@;
    r.append("\n");
    proof {
        assert(styled_as(slv, repeat_text("─"@, length as nat)) && r@ == slv + "\n"@);
    }
    r
}

/// Appends a horizontal rule to `out`.
pub fn write_line(out: &mut String, length: usize)
    ensures
        exists|piece: Seq<char>|
            line_rendered(length as nat, piece) && final(out)@ == old(out)@ + piece,
{
    let l = line(length);
    out.append(l.as_str());
}

/// `out` is a painted empty string padded with `═` to `length`, and a line
/// break: a double rule.
pub open spec fn double_line_rendered(length: nat, out: Seq<char>) -> bool {
    exists|se: Seq<char>|
        strip_ansi(se) == Seq::<char>::empty() && out == pad_right_spec(se, length, "═"@) + "\n"@
}

/// A double rule: an empty painted string filled with `═` to `length`.
pub fn double_line(length: usize) -> (r: String)
    ensures
        double_line_rendered(length as nat, r@),
{
    let se = paint_bright_blue_bold("");
    let ghost sev = se@;
    proof {
        reveal_strlit("═");
        reveal_strlit("");
        assert(strip_ansi(sev) == strip_ansi(""@));
        assert(""@ =~= Seq::<char>::empty());
    }
    let mut r = pad_right(se, length, "═");
    r.append("\n");
    proof {
        assert(strip_ansi(sev) == Seq::<char>::empty() && r@ == pad_right_spec(
            sev,
            length as nat,
            "═"@,
        ) + "\n"@);
    }
    r
}

/// Appends a double rule and one more line break to `out`.
pub fn write_double_line(out: &mut String, length: usize)
    ensures
        exists|piece: Seq<char>|
            double_line_rendered(length as nat, piece) && final(out)@ == old(out)@ + piece + "\n"@,
{
    let l = double_line(length);
    out.append(l.as_str());
    out.append("\n");
}

/// The size of the next chunk of a value being wrapped.
pub open spec fn chunk_len(remaining: nat, size: nat) -> nat {
    if remaining < size {
        remaining
    } else {
        size
    }
}

/// `out` is the continuation lines of a wrapped value: for each chunk of
/// `size` characters, a blank key column, two spaces, the painted chunk and
/// a line break.
pub open spec fn skv_rest_rendered(
    rest: Seq<char>,
    max_klen: nat,
    size: nat,
    out: Seq<char>,
) -> bool
    decreases rest.len(),
{
    if rest.len() == 0 || size == 0 {
        out == Seq::<char>::empty()
    } else {
        let c = chunk_len(rest.len(), size) as int;
        exists|sc: Seq<char>, tail: Seq<char>|
            styled_as(sc, rest.take(c)) && skv_rest_rendered(rest.skip(c), max_klen, size, tail)
                && out == pad_right_spec(" "@, max_klen, " "@) + "  "@ + sc + "\n"@ + tail
    }
}

/// `out` is a whole wrapped key/value block: the padded painted key, a
/// colon and the first painted chunk, then the continuation lines.  An
/// empty value produces no line at all.
pub open spec fn skv_rendered(
    key: Seq<char>,
    value: Seq<char>,
    max_klen: nat,
    size: nat,
    out: Seq<char>,
) -> bool {
    if value.len() == 0 {
        out == Seq::<char>::empty()
    } else {
        let c = chunk_len(value.len(), size) as int;
        exists|sk: Seq<char>, sc: Seq<char>, tail: Seq<char>|
            styled_as(sk, key) && styled_as(sc, value.take(c)) && skv_rest_rendered(
                value.skip(c),
                max_klen,
                size,
                tail,
            ) && out == pad_right_spec(sk, max_klen, " "@) + ": "@ + sc + "\n"@ + tail
    }
}

fn skv_rest(rest: &str, max_klen: usize, max_vlen: usize) -> (r: String)
    requires
        max_vlen >= 1,
    ensures
        skv_rest_rendered(rest@, max_klen as nat, max_vlen as nat, r@),
    decreases rest@.len(),
{
    let rlen = rest.unicode_len();
    if rlen == 0 {
        let r = String::new();
        proof {
            assert(r@ =~= Seq::<char>::empty());
        }
        return r;
    }
    let c = if rlen < max_vlen {
        rlen
    } else {
        max_vlen
    };
    let chunk = rest.substring_char(0, c);
    let sc = paint_bright_cyan(chunk);
    let rest2 = rest.substring_char(c, rlen);
    let tail = skv_rest(rest2, max_klen, max_vlen);
    proof {
        reveal_strlit(" ");
    }
    let mut r = pad_right(" ".to_owned(), max_klen, " ");
    r.append("  ");
    r.append(sc.as_str());
    r.append("\n");
    r.append(tail.as_str());
    proof {
        assert(chunk@ == rest@.take(c as int));
        assert(rest2@ == rest@.skip(c as int));
        assert(styled_as(sc@, rest@.take(c as int)) && skv_rest_rendered(
            rest@.skip(c as int),
            max_klen as nat,
            max_vlen as nat,
            tail@,
        ) && r@ == pad_right_spec(" "@, max_klen as nat, " "@) + "  "@ + sc@ + "\n"@ + tail@);
    }
    r
}

/// A key/value block whose value is wrapped into chunks of `max_vlen`
/// characters, the key column padded to `max_klen`.
pub fn str_key_value(key: &str, value: &str, max_klen: usize, max_vlen: usize) -> (r: String)
    requires
        max_vlen >= 1,
    ensures
        skv_rendered(key@, value@, max_klen as nat, max_vlen as nat, r@),
{
    let vlen = value.unicode_len();
    if vlen == 0 {
        let r = String::new();
        proof {
            assert(r@ =~= Seq::<char>::empty());
        }
        return r;
    }
    let c = if vlen < max_vlen {
        vlen
    } else {
        max_vlen
    };
    let chunk = value.substring_char(0, c);
    let sk = paint_blue(key);
    let sc = paint_bright_cyan(chunk);
    let rest = value.substring_char(c, vlen);
    let tail = skv_rest(rest, max_klen, max_vlen);
    let ghost skv = sk@;
    proof {
        reveal_strlit(" ");
    }
    let mut r = pad_right(sk, max_klen, " ");
    r.append(": ");
    r.append(sc.as_str());
    r.append("\n");
    r.append(tail.as_str());
    proof {
        assert(chunk@ == value@.take(c as int));
        assert(rest@ == value@.skip(c as int));
        assert(styled_as(skv, key@) && styled_as(sc@, value@.take(c as int)) && skv_rest_rendered(
            value@.skip(c as int),
            max_klen as nat,
            max_vlen as nat,
            tail@,
        ) && r@ == pad_right_spec(skv, max_klen as nat, " "@) + ": "@ + sc@ + "\n"@ + tail@);
    }
    r
}

/// The views of a list of key/value string pairs.
pub open spec fn pair_views(pairs: Seq<(String, String)>) -> Seq<(Seq<char>, Seq<char>)> {
    pairs.map_values(|p: (String, String)| (p.0@, p.1@))
}

/// The longest key among the first `upto` pairs, in characters.
pub open spec fn max_key_len(pv: Seq<(Seq<char>, Seq<char>)>, upto: int) -> nat
    decreases upto,
{
    if upto <= 0 {
        0
    } else {
        let prev = max_key_len(pv, upto - 1);
        let cur = pv[upto - 1].0.len();
        if cur > prev {
            cur
        } else {
            prev
        }
    }
}

/// The longest value among the first `upto` pairs, in characters.
pub open spec fn max_val_len(pv: Seq<(Seq<char>, Seq<char>)>, upto: int) -> nat
    decreases upto,
{
    if upto <= 0 {
        0
    } else {
        let prev = max_val_len(pv, upto - 1);
        let cur = pv[upto - 1].1.len();
        if cur > prev {
            cur
        } else {
            prev
        }
    }
}

/// `out` is the key/value blocks of `pv[i..]`, concatenated.
pub open spec fn pairs_block_rendered(
    pv: Seq<(Seq<char>, Seq<char>)>,
    i: int,
    max_k: nat,
    max_v: nat,
    out: Seq<char>,
) -> bool
    decreases pv.len() - i,
{
    if i < 0 || i >= pv.len() {
        out == Seq::<char>::empty()
    } else {
        exists|head: Seq<char>, tail: Seq<char>|
            skv_rendered(pv[i].0, pv[i].1, max_k, max_v, head) && pairs_block_rendered(
                pv,
                i + 1,
                max_k,
                max_v,
                tail,
            ) && out == head + tail
    }
}

fn pairs_block(pairs: &Vec<(String, String)>, i: usize, max_k: usize, max_v: usize) -> (r: String)
    requires
        max_v >= 1,
        i <= pairs@.len(),
    ensures
        pairs_block_rendered(pair_views(pairs@), i as int, max_k as nat, max_v as nat, r@),
    decreases pairs@.len() - i,
{
    if i == pairs.len() {
        let r = String::new();
        proof {
            assert(r@ =~= Seq::<char>::empty());
        }
        return r;
    }
    let head = str_key_value(pairs[i].0.as_str(), pairs[i].1.as_str(), max_k, max_v);
    let tail = pairs_block(pairs, i + 1, max_k, max_v);
    let mut r = head;
    let ghost headv = r@;
    r.append(tail.as_str());
    proof {
        let pv = pair_views(pairs@);
        assert(pv[i as int] == (pairs@[i as int].0@, pairs@[i as int].1@));
        assert(skv_rendered(pv[i as int].0, pv[i as int].1, max_k as nat, max_v as nat, headv)
            && pairs_block_rendered(pv, i + 1, max_k as nat, max_v as nat, tail@) && r@ == headv
            + tail@);
    }
    r
}

/// The key column width of a block: the longest key.
pub open spec fn hashmap_key_width(pv: Seq<(Seq<char>, Seq<char>)>) -> nat {
    max_key_len(pv, pv.len() as int)
}

/// The value column width of a block: the longest value, capped so that the
/// whole line fits in `max_width`.
pub open spec fn hashmap_val_width(pv: Seq<(Seq<char>, Seq<char>)>, max_width: nat) -> nat {
    let mk = hashmap_key_width(pv);
    let raw = max_val_len(pv, pv.len() as int);
    let bound = (max_width - mk - 3) as nat;
    if raw < bound {
        raw
    } else {
        bound
    }
}

/// `out` is a whole key/value listing: an optional title line with a rule
/// under it, one wrapped block per pair, and a closing rule.
pub open spec fn hashmap_rendered(
    pv: Seq<(Seq<char>, Seq<char>)>,
    title: Option<Seq<char>>,
    max_width: nat,
    out: Seq<char>,
) -> bool {
    let mk = hashmap_key_width(pv);
    let mv = hashmap_val_width(pv, max_width);
    let line_len = mk + mv + 3;
    match title {
        Some(t) => exists|th: Seq<char>, lh: Seq<char>, body: Seq<char>, foot: Seq<char>|
            title_rendered(t, th) && line_rendered(line_len, lh) && pairs_block_rendered(
                pv,
                0,
                mk,
                mv,
                body,
            ) && line_rendered(line_len, foot) && out == th + lh + body + foot,
        None => exists|body: Seq<char>, foot: Seq<char>|
            pairs_block_rendered(pv, 0, mk, mv, body) && line_rendered(line_len, foot) && out
                == body + foot,
    }
}

fn longest_key(pairs: &Vec<(String, String)>) -> (r: usize)
    ensures
        r as nat == max_key_len(pair_views(pairs@), pairs@.len() as int),
{
    let mut m: usize = 0;
    let mut i: usize = 0;
    while i < pairs.len()
        invariant
            i <= pairs@.len(),
            m as nat == max_key_len(pair_views(pairs@), i as int),
        decreases pairs@.len() - i,
    {
        let k = pairs[i].0.as_str().unicode_len();
        if k > m {
            m = k;
        }
        proof {
            assert(pair_views(pairs@)[i as int].0 == pairs@[i as int].0@);
        }
        i = i + 1;
    }
    m
}

fn longest_val(pairs: &Vec<(String, String)>) -> (r: usize)
    ensures
        r as nat == max_val_len(pair_views(pairs@), pairs@.len() as int),
{
    let mut m: usize = 0;
    let mut i: usize = 0;
    while i < pairs.len()
        invariant
            i <= pairs@.len(),
            m as nat == max_val_len(pair_views(pairs@), i as int),
        decreases pairs@.len() - i,
    {
        let v = pairs[i].1.as_str().unicode_len();
        if v > m {
            m = v;
        }
        proof {
            assert(pair_views(pairs@)[i as int].1 == pairs@[i as int].1@);
        }
        i = i + 1;
    }
    m
}

/// A key/value listing of already-stringified pairs, values wrapped so the
/// longest line stays within `max_width` columns, with an optional title.
pub fn str_hashmap(pairs: &Vec<(String, String)>, title: Option<&str>, max_width: usize) -> (r:
    String)
    requires
        pairs@.len() > 0,
        max_key_len(pair_views(pairs@), pairs@.len() as int) + 3 < max_width,
        max_val_len(pair_views(pairs@), pairs@.len() as int) > 0,
    ensures
        hashmap_rendered(pair_views(pairs@), opt_view(title), max_width as nat, r@),
{
    let max_k = longest_key(pairs);
    let raw_v = longest_val(pairs);
    let bound = max_width - max_k - 3;
    let max_v = if raw_v < bound {
        raw_v
    } else {
        bound
    };
    let line_len = max_k + max_v + 3;
    proof {
        let pv = pair_views(pairs@);
        assert(hashmap_key_width(pv) == max_k as nat);
        assert(hashmap_val_width(pv, max_width as nat) == max_v as nat);
    }
    let body = pairs_block(pairs, 0, max_k, max_v);
    let foot = line(line_len);
    let mut out = String::new();
    match title {
        Some(t) => {
            let th = str_title(t);
            let lh = line(line_len);
            out.append(th.as_str());
            out.append(lh.as_str());
            out.append(body.as_str());
            out.append(foot.as_str());
            proof {
                assert(out@ == th@ + lh@ + body@ + foot@);
            }
        },
        None => {
            out.append(body.as_str());
            out.append(foot.as_str());
            proof {
                assert(out@ =~= body@ + foot@);
            }
        },
    }
    out
}

/// Appends a key/value listing to `out`, followed by one more line break.
pub fn write_hashmap(out: &mut String, pairs: &Vec<(String, String)>, title: Option<&str>, max_width: usize)
    requires
        pairs@.len() > 0,
        max_key_len(pair_views(pairs@), pairs@.len() as int) + 3 < max_width,
        max_val_len(pair_views(pairs@), pairs@.len() as int) > 0,
    ensures
        exists|piece: Seq<char>|
            hashmap_rendered(pair_views(pairs@), opt_view(title), max_width as nat, piece)
                && final(out)@ == old(out)@ + piece + "\n"@,
{
    let piece = str_hashmap(pairs, title, max_width);
    out.append(piece.as_str());
    out.append("\n");
}

/// The key column width of a struct dump: one wider than the longest key.
pub open spec fn struct_key_width(pv: Seq<(Seq<char>, Seq<char>)>) -> nat {
    max_key_len(pv, pv.len() as int) + 1
}

/// The value column width of a struct dump: one wider than the longest
/// value, capped so that the whole line fits in `max_width`.
pub open spec fn struct_val_width(pv: Seq<(Seq<char>, Seq<char>)>, max_width: nat) -> nat {
    let mk = struct_key_width(pv);
    let raw = max_val_len(pv, pv.len() as int) + 1;
    let bound = (max_width - mk - 3) as nat;
    if raw < bound {
        raw
    } else {
        bound
    }
}

/// `out` is a struct dump: a title line, a rule, one wrapped block per
/// field, and a closing rule.
pub open spec fn struct_fields_rendered(
    pv: Seq<(Seq<char>, Seq<char>)>,
    title: Seq<char>,
    max_width: nat,
    out: Seq<char>,
) -> bool {
    let mk = struct_key_width(pv);
    let mv = struct_val_width(pv, max_width);
    let line_len = mk + mv + 3;
    exists|th: Seq<char>, lh: Seq<char>, body: Seq<char>, foot: Seq<char>|
        title_rendered(title, th) && line_rendered(line_len, lh) && pairs_block_rendered(
            pv,
            0,
            mk,
            mv,
            body,
        ) && line_rendered(line_len, foot) && out == th + lh + body + foot
}

/// A struct dump from already-stringified field names and values: a title,
/// a rule, one wrapped `key: value` block per field, and a closing rule.
pub fn str_struct_fields(title: &str, pairs: &Vec<(String, String)>, max_width: usize) -> (r:
    String)
    requires
        max_key_len(pair_views(pairs@), pairs@.len() as int) + 4 < max_width,
        max_val_len(pair_views(pairs@), pairs@.len() as int) < usize::MAX,
    ensures
        struct_fields_rendered(pair_views(pairs@), title@, max_width as nat, r@),
{
    let max_k = longest_key(pairs) + 1;
    let raw_v = longest_val(pairs) + 1;
    let bound = max_width - max_k - 3;
    let max_v = if raw_v < bound {
        raw_v
    } else {
        bound
    };
    let line_len = max_k + max_v + 3;
    proof {
        let pv = pair_views(pairs@);
        assert(struct_key_width(pv) == max_k as nat);
        assert(struct_val_width(pv, max_width as nat) == max_v as nat);
    }
    let th = str_title(title);
    let lh = line(line_len);
    let body = pairs_block(pairs, 0, max_k, max_v);
    let foot = line(line_len);
    let mut out = String::new();
    out.append(th.as_str());
    out.append(lh.as_str());
    out.append(body.as_str());
    out.append(foot.as_str());
    proof {
        assert(out@ == th@ + lh@ + body@ + foot@);
    }
    out
}

/// Whether a tree line is an inner item or the last one.
pub enum TreeBlock {
    Item,
    End,
}

/// The views of one table row.
pub open spec fn row_views(row: Seq<&str>) -> Seq<Seq<char>> {
    row.map_values(|c: &str| c@)
}

/// The views of a whole table.
pub open spec fn tbl_views(table: Seq<Vec<&str>>) -> Seq<Seq<Seq<char>>> {
    table.map_values(|row: Vec<&str>| row_views(row@))
}

/// The widest cell of column `col` over the first `rows` rows, in
/// characters; a row without that column contributes nothing.
pub open spec fn col_max(tv: Seq<Seq<Seq<char>>>, col: int, rows: int) -> nat
    decreases rows,
{
    if rows <= 0 {
        0
    } else {
        let prev = col_max(tv, col, rows - 1);
        let cur = if 0 <= col < tv[rows - 1].len() {
            tv[rows - 1][col].len()
        } else {
            0
        };
        if cur > prev {
            cur
        } else {
            prev
        }
    }
}

/// The width of column `col`: its widest cell, capped at `cap`.
pub open spec fn capped_col_width(tv: Seq<Seq<Seq<char>>>, col: int, cap: nat) -> nat {
    let m = col_max(tv, col, tv.len() as int);
    if m < cap {
        m
    } else {
        cap
    }
}

/// One width per column of the first row, each the widest cell of its
/// column capped at `column_width`.
pub fn get_column_widths(table: &Vec<Vec<&str>>, column_width: usize) -> (r: Vec<usize>)
    requires
        table@.len() > 0,
    ensures
        r@.len() == table@[0]@.len(),
        forall|c: int|
            0 <= c < r@.len() ==> (#[trigger] r@[c]) as nat == capped_col_width(
                tbl_views(table@),
                c,
                column_width as nat,
            ),
{
    let ncols = table[0].len();
    let mut widths: Vec<usize> = Vec::new();
    let mut c: usize = 0;
    while c < ncols
        invariant
            c <= ncols,
            ncols == table@[0]@.len(),
            table@.len() > 0,
            widths@.len() == c,
            forall|cc: int|
                0 <= cc < c ==> (#[trigger] widths@[cc]) as nat == capped_col_width(
                    tbl_views(table@),
                    cc,
                    column_width as nat,
                ),
        decreases ncols - c,
    {
        let mut m: usize = 0;
        let mut rr: usize = 0;
        while rr < table.len()
            invariant
                rr <= table@.len(),
                c < table@[0]@.len(),
                m as nat == col_max(tbl_views(table@), c as int, rr as int),
            decreases table@.len() - rr,
        {
            let cur = if c < table[rr].len() {
                table[rr][c].unicode_len()
            } else {
                0
            };
            proof {
                let tv = tbl_views(table@);
                assert(tv[rr as int] == row_views(table@[rr as int]@));
                if c < table@[rr as int]@.len() {
                    assert(tv[rr as int][c as int] == table@[rr as int]@[c as int]@);
                }
            }
            if cur > m {
                m = cur;
            }
            rr = rr + 1;
        }
        let w = if m < column_width {
            m
        } else {
            column_width
        };
        widths.push(w);
        c = c + 1;
    }
    widths
}

/// The last column of the segment that begins at `i` with `acc` columns of
/// width already taken: columns are added, each with its three-space gap,
/// until the running width would pass `maxw`; the segment ends just before
/// the column that passes it, or at the last column.
pub open spec fn seg_end(ws: Seq<usize>, i: int, acc: nat, maxw: nat) -> int
    decreases ws.len() - i,
{
    if i < 0 || i >= ws.len() {
        ws.len() - 1
    } else if acc + ws[i] + 3 > maxw {
        i - 1
    } else {
        seg_end(ws, i + 1, (acc + ws[i] + 3) as nat, maxw)
    }
}

/// The total width of the columns `i..=j`, each with its three-space gap.
pub open spec fn seg_sum(ws: Seq<usize>, i: int, j: int) -> nat
    decreases j - i + 1,
{
    if i < 0 || i > j || j >= ws.len() {
        0
    } else {
        (ws[i] + 3 + seg_sum(ws, i + 1, j)) as nat
    }
}

/// The segment end never lies before `i - 1` nor past the last column, and
/// lies at `i` or later when the first column fits.
pub proof fn lemma_seg_end_bounds(ws: Seq<usize>, i: int, acc: nat, maxw: nat)
    requires
        0 <= i <= ws.len(),
    ensures
        seg_end(ws, i, acc, maxw) >= i - 1,
        seg_end(ws, i, acc, maxw) <= ws.len() - 1,
        i < ws.len() && acc + ws[i] + 3 <= maxw ==> seg_end(ws, i, acc, maxw) >= i,
    decreases ws.len() - i,
{
    if 0 <= i < ws.len() && !(acc + ws[i] + 3 > maxw) {
        lemma_seg_end_bounds(ws, i + 1, (acc + ws[i] + 3) as nat, maxw);
    }
}

/// The columns of a segment, with their gaps, fit in the width that was
/// left when the segment began.
pub proof fn lemma_seg_end_sum(ws: Seq<usize>, i: int, acc: nat, maxw: nat)
    requires
        0 <= i <= ws.len(),
        acc <= maxw,
    ensures
        acc + seg_sum(ws, i, seg_end(ws, i, acc, maxw)) <= maxw,
    decreases ws.len() - i,
{
    if 0 <= i < ws.len() && !(acc + ws[i] + 3 > maxw) {
        lemma_seg_end_sum(ws, i + 1, (acc + ws[i] + 3) as nat, maxw);
        lemma_seg_end_bounds(ws, i + 1, (acc + ws[i] + 3) as nat, maxw);
    }
}

fn next_columns_segment(start_index: usize, max_width: usize, col_widths: &Vec<usize>) -> (r:
    usize)
    requires
        col_widths@.len() > 0,
        start_index < col_widths@.len(),
        forall|t: int| 0 <= t < col_widths@.len() ==> (#[trigger] col_widths@[t]) + 3 <= max_width,
        2 * max_width <= usize::MAX,
    ensures
        r as int == seg_end(col_widths@, start_index as int, 0, max_width as nat),
        start_index <= r < col_widths@.len(),
{
    let mut current_width: usize = 0;
    let mut i: usize = start_index;
    proof {
        lemma_seg_end_bounds(col_widths@, start_index as int, 0, max_width as nat);
    }
    while i < col_widths.len()
        invariant
            start_index <= i <= col_widths@.len(),
            current_width <= max_width,
            2 * max_width <= usize::MAX,
            forall|t: int|
                0 <= t < col_widths@.len() ==> (#[trigger] col_widths@[t]) + 3 <= max_width,
            seg_end(col_widths@, start_index as int, 0, max_width as nat) == seg_end(
                col_widths@,
                i as int,
                current_width as nat,
                max_width as nat,
            ),
            i == start_index ==> current_width == 0,
            i > start_index ==> current_width >= col_widths@[i - 1] + 3,
        decreases col_widths@.len() - i,
    {
        let w = col_widths[i];
        let step = current_width + w + 3;
        if step > max_width {
            proof {
                assert(seg_end(col_widths@, i as int, current_width as nat, max_width as nat) == i
                    - 1);
            }
            return i - 1;
        }
        current_width = step;
        i = i + 1;
    }
    col_widths.len() - 1
}

/// `out` is the cells `start + i ..= last` of a row: each cell truncated to
/// its column width (a starred truncation when it overflows), painted in
/// its column colour, padded, and followed by the three-space gap.  The
/// widths are read from the start of `ws`, one per cell.
pub open spec fn row_cells_rendered(
    rv: Seq<Seq<char>>,
    ws: Seq<usize>,
    start: int,
    last: int,
    i: int,
    out: Seq<char>,
) -> bool
    decreases last - start - i + 1,
{
    if i < 0 || i > last - start {
        out == Seq::<char>::empty()
    } else {
        let cell = rv[start + i];
        let w = ws[i] as nat;
        let content = if cell.len() > w {
            cell.take(w as int - 1) + "*"@
        } else {
            cell
        };
        exists|sc: Seq<char>, tail: Seq<char>|
            styled_as(sc, content) && row_cells_rendered(rv, ws, start, last, i + 1, tail) && out
                == pad_right_spec(sc, w, " "@) + "   "@ + tail
    }
}

/// `out` is a whole table row: its cells and a line break.
pub open spec fn row_rendered(
    rv: Seq<Seq<char>>,
    ws: Seq<usize>,
    start: int,
    last: int,
    out: Seq<char>,
) -> bool {
    exists|cells: Seq<char>|
        row_cells_rendered(rv, ws, start, last, 0, cells) && out == cells + "\n"@
}

fn row_cells(row: &Vec<&str>, widths: &Vec<usize>, start: usize, last: usize, i: usize) -> (r:
    String)
    requires
        start <= last < row@.len(),
        last - start < widths@.len(),
        forall|t: int| 0 <= t <= last - start ==> (#[trigger] widths@[t]) >= 1,
        i <= last - start + 1,
    ensures
        row_cells_rendered(row_views(row@), widths@, start as int, last as int, i as int, r@),
    decreases last - start - i + 1,
{
    // reading the length pins row@.len() within usize for the index sums
    let _rlen = row.len();
    if i > last - start {
        let r = String::new();
        proof {
            assert(r@ =~= Seq::<char>::empty());
        }
        return r;
    }
    let cell: &str = row[start + i];
    let w = widths[i];
    let clen = cell.unicode_len();
    let content: String = if clen > w {
        let mut t = cell.substring_char(0, w - 1).to_owned();
        t.append("*");
        t
    } else {
        cell.to_owned()
    };
    let sc = paint_column(content.as_str(), i);
    let tail = row_cells(row, widths, start, last, i + 1);
    let ghost scv = sc@;
    proof {
        reveal_strlit(" ");
    }
    let mut r = pad_right(sc, w, " ");
    r.append("   ");
    r.append(tail.as_str());
    proof {
        let rv = row_views(row@);
        assert(rv[start + i] == row@[start + i]@);
        assert(styled_as(scv, (if rv[start + i].len() > w as nat {
            rv[start + i].take(w as int - 1) + "*"@
        } else {
            rv[start + i]
        })) && row_cells_rendered(rv, widths@, start as int, last as int, i + 1, tail@) && r@
            == pad_right_spec(scv, w as nat, " "@) + "   "@ + tail@);
    }
    r
}

/// One table row: each cell painted in its column colour, truncated and
/// padded to its column width, the cells separated by three spaces, the row
/// ended by a line break.
pub fn make_row(row: &Vec<&str>, widths: &Vec<usize>, start_index: usize, last_index: usize) -> (r:
    String)
    requires
        start_index <= last_index < row@.len(),
        last_index - start_index < widths@.len(),
        forall|t: int|
            0 <= t <= last_index - start_index ==> (#[trigger] widths@[t]) >= 1,
    ensures
        row_rendered(row_views(row@), widths@, start_index as int, last_index as int, r@),
{
    let mut r = row_cells(row, widths, start_index, last_index, 0);
    let ghost cells = r@;
    r.append("\n");
    proof {
        assert(row_cells_rendered(
            row_views(row@),
            widths@,
            start_index as int,
            last_index as int,
            0,
            cells,
        ) && r@ == cells + "\n"@);
    }
    r
}

/// The number of header rows for the cells `start ..= start + upto - 1`:
/// the largest quotient of a header's length by its column width.
pub open spec fn hdr_rows_upto(hv: Seq<Seq<char>>, ws: Seq<usize>, start: int, upto: int) -> nat
    decreases upto,
{
    if upto <= 0 {
        0
    } else {
        let prev = hdr_rows_upto(hv, ws, start, upto - 1);
        let cur = hv[start + upto - 1].len() / ws[upto - 1] as nat;
        if cur > prev {
            cur
        } else {
            prev
        }
    }
}

/// The number of header rows of the segment `start ..= last`.
pub open spec fn hdr_rows(hv: Seq<Seq<char>>, ws: Seq<usize>, start: int, last: int) -> nat {
    hdr_rows_upto(hv, ws, start, last - start + 1)
}

/// The longest cell among the first `upto` of a row.
pub open spec fn row_max_len(rv: Seq<Seq<char>>, upto: int) -> nat
    decreases upto,
{
    if upto <= 0 {
        0
    } else {
        let prev = row_max_len(rv, upto - 1);
        let cur = rv[upto - 1].len();
        if cur > prev {
            cur
        } else {
            prev
        }
    }
}

/// Every cell of a row is at most the row's longest cell.
pub proof fn lemma_row_max_ge(rv: Seq<Seq<char>>, upto: int, idx: int)
    requires
        0 <= idx < upto,
    ensures
        rv[idx].len() <= row_max_len(rv, upto),
    decreases upto,
{
    if idx < upto - 1 {
        lemma_row_max_ge(rv, upto - 1, idx);
    }
}

/// The header row count never exceeds the longest header cell, since every
/// column is at least one character wide.
pub proof fn lemma_hdr_rows_le(hv: Seq<Seq<char>>, ws: Seq<usize>, start: int, upto: int)
    requires
        0 <= start,
        start + upto <= hv.len(),
        forall|t: int| 0 <= t < upto ==> (#[trigger] ws[t]) >= 1,
    ensures
        hdr_rows_upto(hv, ws, start, upto) <= row_max_len(hv, hv.len() as int),
    decreases upto,
{
    if upto > 0 {
        lemma_hdr_rows_le(hv, ws, start, upto - 1);
        let cell = hv[start + upto - 1];
        let w = ws[upto - 1] as nat;
        assert(cell.len() / w <= cell.len()) by (nonlinear_arith)
            requires
                w >= 1,
        ;
        lemma_row_max_ge(hv, hv.len() as int, start + upto - 1);
    }
}

/// `out` is the slices of the header cells `start + i ..= last` for header
/// row `hr`: each cell padded to its column width times the row count, the
/// `hr`-th width-sized slice painted in the column colour and followed by
/// the three-space gap.
pub open spec fn hdr_cells_rendered(
    hv: Seq<Seq<char>>,
    ws: Seq<usize>,
    start: int,
    last: int,
    hr: int,
    rows: nat,
    i: int,
    out: Seq<char>,
) -> bool
    decreases last - start - i + 1,
{
    if i < 0 || i > last - start {
        out == Seq::<char>::empty()
    } else {
        let cell = hv[start + i];
        let w = ws[i] as int;
        let padded = pad_right_spec(cell, (w * rows) as nat, " "@);
        let slice = padded.subrange(hr * w, hr * w + w);
        exists|sc: Seq<char>, tail: Seq<char>|
            styled_as(sc, slice) && hdr_cells_rendered(hv, ws, start, last, hr, rows, i + 1, tail)
                && out == sc + "   "@ + tail
    }
}

/// `out` is the header rows `hr ..` of a segment, each ended by a line
/// break.
pub open spec fn hdr_block_rendered(
    hv: Seq<Seq<char>>,
    ws: Seq<usize>,
    start: int,
    last: int,
    hr: int,
    rows: nat,
    out: Seq<char>,
) -> bool
    decreases rows - hr,
{
    if hr < 0 || hr >= rows {
        out == Seq::<char>::empty()
    } else {
        exists|rowout: Seq<char>, tail: Seq<char>|
            hdr_cells_rendered(hv, ws, start, last, hr, rows, 0, rowout) && hdr_block_rendered(
                hv,
                ws,
                start,
                last,
                hr + 1,
                rows,
                tail,
            ) && out == rowout + "\n"@ + tail
    }
}

/// `out` is the whole header of a segment.
pub open spec fn header_rendered(
    hv: Seq<Seq<char>>,
    ws: Seq<usize>,
    start: int,
    last: int,
    out: Seq<char>,
) -> bool {
    hdr_block_rendered(hv, ws, start, last, 0, hdr_rows(hv, ws, start, last), out)
}

fn hdr_rows_exec(headers: &Vec<&str>, widths: &Vec<usize>, start: usize, last: usize) -> (r:
    usize)
    requires
        start <= last < headers@.len(),
        last - start < widths@.len(),
        forall|t: int| 0 <= t <= last - start ==> (#[trigger] widths@[t]) >= 1,
    ensures
        r as nat == hdr_rows(row_views(headers@), widths@, start as int, last as int),
{
    // reading the length pins headers@.len() within usize for the index sums
    let _hlen = headers.len();
    let mut m: usize = 0;
    let mut i: usize = 0;
    while i <= last - start
        invariant
            i <= last - start + 1,
            start <= last < headers@.len(),
            headers@.len() <= usize::MAX,
            last - start < widths@.len(),
            forall|t: int| 0 <= t <= last - start ==> (#[trigger] widths@[t]) >= 1,
            m as nat == hdr_rows_upto(row_views(headers@), widths@, start as int, i as int),
        decreases last - start + 1 - i,
    {
        let cur = headers[start + i].unicode_len() / widths[i];
        proof {
            assert(row_views(headers@)[start + i] == headers@[start + i as int]@);
        }
        if cur > m {
            m = cur;
        }
        i = i + 1;
    }
    m
}

fn hdr_cells(
    headers: &Vec<&str>,
    widths: &Vec<usize>,
    start: usize,
    last: usize,
    hr: usize,
    rows: usize,
    i: usize,
) -> (r: String)
    requires
        start <= last < headers@.len(),
        last - start < widths@.len(),
        forall|t: int| 0 <= t <= last - start ==> (#[trigger] widths@[t]) >= 1,
        forall|t: int|
            0 <= t <= last - start ==> (#[trigger] widths@[t]) * rows <= usize::MAX,
        hr < rows,
        i <= last - start + 1,
    ensures
        hdr_cells_rendered(
            row_views(headers@),
            widths@,
            start as int,
            last as int,
            hr as int,
            rows as nat,
            i as int,
            r@,
        ),
    decreases last - start - i + 1,
{
    // reading the length pins headers@.len() within usize for the index sums
    let _hlen = headers.len();
    if i > last - start {
        let r = String::new();
        proof {
            assert(r@ =~= Seq::<char>::empty());
        }
        return r;
    }
    let cell: &str = headers[start + i];
    let w = widths[i];
    proof {
        assert(w * rows <= usize::MAX);
    }
    let target = w * rows;
    proof {
        assert(hr * w + w <= rows * w) by (nonlinear_arith)
            requires
                hr + 1 <= rows,
                w >= 0,
        ;
        assert(rows * w == w * rows) by (nonlinear_arith);
        reveal_strlit(" ");
    }
    let padded = pad_right(cell.to_owned(), target, " ");
    let from = hr * w;
    let to = from + w;
    proof {
        crate::textfmt::lemma_pad_right_len(cell@, target as nat, " "@);
        assert(padded@.len() >= target);
    }
    let slice = padded.as_str().substring_char(from, to);
    let sc = paint_column(slice, i);
    let tail = hdr_cells(headers, widths, start, last, hr, rows, i + 1);
    let mut r = sc;
    let ghost scv = r@;
    r.append("   ");
    r.append(tail.as_str());
    proof {
        let hv = row_views(headers@);
        assert(hv[start + i] == headers@[start + i as int]@);
        assert(styled_as(scv, pad_right_spec(hv[start + i], (w as int * rows as int) as nat, " "@)
            .subrange(hr as int * w as int, hr as int * w as int + w as int))
            && hdr_cells_rendered(
            hv,
            widths@,
            start as int,
            last as int,
            hr as int,
            rows as nat,
            i + 1,
            tail@,
        ) && r@ == scv + "   "@ + tail@);
    }
    r
}

fn hdr_block(
    headers: &Vec<&str>,
    widths: &Vec<usize>,
    start: usize,
    last: usize,
    hr: usize,
    rows: usize,
) -> (r: String)
    requires
        start <= last < headers@.len(),
        last - start < widths@.len(),
        forall|t: int| 0 <= t <= last - start ==> (#[trigger] widths@[t]) >= 1,
        forall|t: int|
            0 <= t <= last - start ==> (#[trigger] widths@[t]) * rows <= usize::MAX,
        hr <= rows,
    ensures
        hdr_block_rendered(
            row_views(headers@),
            widths@,
            start as int,
            last as int,
            hr as int,
            rows as nat,
            r@,
        ),
    decreases rows - hr,
{
    if hr >= rows {
        let r = String::new();
        proof {
            assert(r@ =~= Seq::<char>::empty());
        }
        return r;
    }
    let rowout = hdr_cells(headers, widths, start, last, hr, rows, 0);
    let tail = hdr_block(headers, widths, start, last, hr + 1, rows);
    let mut r = rowout;
    let ghost rowv = r@;
    r.append("\n");
    r.append(tail.as_str());
    proof {
        let hv = row_views(headers@);
        assert(hdr_cells_rendered(
            hv,
            widths@,
            start as int,
            last as int,
            hr as int,
            rows as nat,
            0,
            rowv,
        ) && hdr_block_rendered(
            hv,
            widths@,
            start as int,
            last as int,
            hr + 1,
            rows as nat,
            tail@,
        ) && r@ == rowv + "\n"@ + tail@);
    }
    r
}

/// The header rows of a segment: each header cell padded to its column
/// width times the number of header rows, written as stacked width-sized
/// slices, each slice painted in its column colour.
pub fn make_header(headers: &Vec<&str>, widths: &Vec<usize>, start_index: usize, last_index: usize) -> (r: String)
    requires
        start_index <= last_index < headers@.len(),
        last_index - start_index < widths@.len(),
        forall|t: int|
            0 <= t <= last_index - start_index ==> (#[trigger] widths@[t]) >= 1,
        forall|t: int|
            0 <= t <= last_index - start_index ==> (#[trigger] widths@[t]) * hdr_rows(
                row_views(headers@),
                widths@,
                start_index as int,
                last_index as int,
            ) <= usize::MAX,
    ensures
        header_rendered(
            row_views(headers@),
            widths@,
            start_index as int,
            last_index as int,
            r@,
        ),
{
    let rows = hdr_rows_exec(headers, widths, start_index, last_index);
    hdr_block(headers, widths, start_index, last_index, 0, rows)
}

/// Appends a segment header and a line break to `out`.
pub fn write_header(
    out: &mut String,
    headers: &Vec<&str>,
    widths: &Vec<usize>,
    start_index: usize,
    last_index: usize,
)
    requires
        start_index <= last_index < headers@.len(),
        last_index - start_index < widths@.len(),
        forall|t: int|
            0 <= t <= last_index - start_index ==> (#[trigger] widths@[t]) >= 1,
        forall|t: int|
            0 <= t <= last_index - start_index ==> (#[trigger] widths@[t]) * hdr_rows(
                row_views(headers@),
                widths@,
                start_index as int,
                last_index as int,
            ) <= usize::MAX,
    ensures
        exists|piece: Seq<char>|
            header_rendered(
                row_views(headers@),
                widths@,
                start_index as int,
                last_index as int,
                piece,
            ) && final(out)@ == old(out)@ + piece + "\n"@,
{
    let piece = make_header(headers, widths, start_index, last_index);
    out.append(piece.as_str());
    out.append("\n");
}

} // verus!

verus! {

/// The column-width cap: the given one, or `MAX_COL_WIDTH`.
pub open spec fn cap_of(column_width: Option<usize>) -> nat {
    match column_width {
        Some(w) => w as nat,
        None => MAX_COL_WIDTH as nat,
    }
}

/// One width per column: the widest cell of the column, capped.
pub open spec fn widths_spec(tv: Seq<Seq<Seq<char>>>, cap: nat) -> Seq<usize> {
    Seq::new(tv[0].len(), |c: int| capped_col_width(tv, c, cap) as usize)
}

/// `out` is the data rows `i ..` of a segment, one rendered row each.
pub open spec fn seg_rows_rendered(
    tv: Seq<Seq<Seq<char>>>,
    ws: Seq<usize>,
    start: int,
    last: int,
    i: int,
    out: Seq<char>,
) -> bool
    decreases tv.len() - i,
{
    if i < 1 || i >= tv.len() {
        out == Seq::<char>::empty()
    } else {
        exists|rowout: Seq<char>, tail: Seq<char>|
            row_rendered(tv[i], ws, start, last, rowout) && seg_rows_rendered(
                tv,
                ws,
                start,
                last,
                i + 1,
                tail,
            ) && out == rowout + tail
    }
}

/// `out` is one table segment: the header rows and a rule (or just the
/// rule, without a header), the data rows, the rule again and a blank line.
pub open spec fn seg_rendered(
    tv: Seq<Seq<Seq<char>>>,
    header: bool,
    ws: Seq<usize>,
    maxw: nat,
    start: int,
    out: Seq<char>,
) -> bool {
    let next = seg_end(ws, start, 0, maxw);
    let tlen = seg_sum(ws, start, next);
    exists|lp: Seq<char>, hd: Seq<char>, rows_out: Seq<char>|
        line_rendered(tlen, lp) && (if header {
            exists|ho: Seq<char>| header_rendered(tv[0], ws, start, next, ho) && hd == ho + lp
        } else {
            hd == lp
        }) && seg_rows_rendered(tv, ws, start, next, 1, rows_out) && out == hd + rows_out + lp
            + "\n"@
}

/// `out` is every segment of the table from the column `start` on.
pub open spec fn segs_rendered(
    tv: Seq<Seq<Seq<char>>>,
    header: bool,
    ws: Seq<usize>,
    maxw: nat,
    start: int,
    out: Seq<char>,
) -> bool
    decreases ws.len() - start,
{
    if start < 0 || start >= ws.len() {
        out == Seq::<char>::empty()
    } else {
        let next0 = seg_end(ws, start, 0, maxw);
        let next = if next0 < start {
            start
        } else if next0 >= ws.len() {
            ws.len() - 1
        } else {
            next0
        };
        exists|seg_out: Seq<char>, rest: Seq<char>|
            seg_rendered(tv, header, ws, maxw, start, seg_out) && segs_rendered(
                tv,
                header,
                ws,
                maxw,
                next + 1,
                rest,
            ) && out == seg_out + rest
    }
}

/// `out` is the whole table: an optional painted title line, then every
/// segment that the columns split into under the width limit.
pub open spec fn table_rendered(
    tv: Seq<Seq<Seq<char>>>,
    header: bool,
    title: Option<Seq<char>>,
    cap: nat,
    maxw: nat,
    out: Seq<char>,
) -> bool {
    let ws = widths_spec(tv, cap);
    match title {
        Some(t) => exists|st: Seq<char>, rest: Seq<char>|
            styled_as(st, t) && segs_rendered(tv, header, ws, maxw, 0, rest) && out == st + "\n"@
                + rest,
        None => segs_rendered(tv, header, ws, maxw, 0, out),
    }
}

fn seg_rows(
    table: &Vec<Vec<&str>>,
    col_widths: &Vec<usize>,
    start: usize,
    last: usize,
    i: usize,
) -> (r: String)
    requires
        1 <= i <= table@.len(),
        forall|rr: int|
            0 <= rr < table@.len() ==> (#[trigger] table@[rr]@).len() == table@[0]@.len(),
        start <= last < table@[0]@.len(),
        last - start < col_widths@.len(),
        forall|t: int| 0 <= t < col_widths@.len() ==> (#[trigger] col_widths@[t]) >= 1,
    ensures
        seg_rows_rendered(
            tbl_views(table@),
            col_widths@,
            start as int,
            last as int,
            i as int,
            r@,
        ),
    decreases table@.len() - i,
{
    let n = table.len();
    if i >= n {
        let r = String::new();
        proof {
            assert(r@ =~= Seq::<char>::empty());
        }
        return r;
    }
    let rowout = make_row(&table[i], col_widths, start, last);
    let tail = seg_rows(table, col_widths, start, last, i + 1);
    let mut r = rowout;
    let ghost rowv = r@;
    r.append(tail.as_str());
    proof {
        let tv = tbl_views(table@);
        assert(tv[i as int] == row_views(table@[i as int]@));
        assert(row_rendered(tv[i as int], col_widths@, start as int, last as int, rowv)
            && seg_rows_rendered(tv, col_widths@, start as int, last as int, i + 1, tail@) && r@
            == rowv + tail@);
    }
    r
}

fn table_segs(
    table: &Vec<Vec<&str>>,
    header: bool,
    col_widths: &Vec<usize>,
    max_width: usize,
    start: usize,
) -> (r: String)
    requires
        table@.len() > 0,
        col_widths@.len() == table@[0]@.len(),
        forall|rr: int|
            0 <= rr < table@.len() ==> (#[trigger] table@[rr]@).len() == table@[0]@.len(),
        forall|t: int| 0 <= t < col_widths@.len() ==> (#[trigger] col_widths@[t]) >= 1,
        forall|t: int|
            0 <= t < col_widths@.len() ==> (#[trigger] col_widths@[t]) + 3 <= max_width,
        2 * max_width <= usize::MAX,
        forall|t: int|
            0 <= t < col_widths@.len() ==> (#[trigger] col_widths@[t]) * row_max_len(
                tbl_views(table@)[0],
                tbl_views(table@)[0].len() as int,
            ) <= usize::MAX,
        start <= col_widths@.len(),
    ensures
        segs_rendered(
            tbl_views(table@),
            header,
            col_widths@,
            max_width as nat,
            start as int,
            r@,
        ),
    decreases col_widths@.len() - start,
{
    let ncols = col_widths.len();
    if start >= ncols {
        let r = String::new();
        proof {
            assert(r@ =~= Seq::<char>::empty());
        }
        return r;
    }
    let ghost tv = tbl_views(table@);
    let ghost ws = col_widths@;
    let ghost maxw = max_width as nat;
    let next = next_columns_segment(start, max_width, col_widths);
    proof {
        lemma_seg_end_sum(ws, start as int, 0, maxw);
    }
    let mut tlen: usize = 0;
    let mut t: usize = start;
    while t <= next
        invariant
            start <= t <= next + 1,
            next < usize::MAX,
            next < ws.len(),
            ws == col_widths@,
            maxw == max_width as nat,
            seg_sum(ws, start as int, next as int) == tlen + seg_sum(ws, t as int, next as int),
            tlen <= seg_sum(ws, start as int, next as int),
            seg_sum(ws, start as int, next as int) <= maxw,
        decreases next + 1 - t,
    {
        let w = col_widths[t];
        proof {
            assert(seg_sum(ws, t as int, next as int) == ws[t as int] + 3 + seg_sum(
                ws,
                t + 1,
                next as int,
            ));
        }
        tlen = tlen + w + 3;
        t = t + 1;
    }
    proof {
        assert(seg_sum(ws, next + 1, next as int) == 0);
        assert(tlen as nat == seg_sum(ws, start as int, next as int));
    }
    let lp = line(tlen);
    let mut r = String::new();
    let ghost mut hov: Seq<char> = Seq::empty();
    if header {
        proof {
            assert(tv[0] == row_views(table@[0]@));
            let rows = hdr_rows(tv[0], ws, start as int, next as int);
            lemma_hdr_rows_le(tv[0], ws, start as int, next - start + 1);
            assert forall|q: int| 0 <= q <= next - start implies (#[trigger] ws[q]) * rows
                <= usize::MAX by {
                let rm = row_max_len(tv[0], tv[0].len() as int);
                assert(ws[q] * rows <= ws[q] * rm) by (nonlinear_arith)
                    requires
                        rows <= rm,
                        ws[q] >= 0,
                ;
            }
        }
        let ho = make_header(&table[0], col_widths, start, next);
        proof {
            hov = ho@;
        }
        r.append(ho.as_str());
    }
    r.append(lp.as_str());
    let ghost hd = r@;
    let rows_out = seg_rows(table, col_widths, start, next, 1);
    r.append(rows_out.as_str());
    r.append(lp.as_str());
    r.append("\n");
    let ghost seg_out = r@;
    let rest = table_segs(table, header, col_widths, max_width, next + 1);
    r.append(rest.as_str());
    proof {
        assert(line_rendered(seg_sum(ws, start as int, next as int), lp@));
        if header {
            assert(header_rendered(tv[0], ws, start as int, next as int, hov) && hd == hov + lp@);
        } else {
            assert(hd == lp@);
        }
        assert(seg_out == hd + rows_out@ + lp@ + "\n"@);
        assert(seg_rendered(tv, header, ws, maxw, start as int, seg_out));
        assert(r@ == seg_out + rest@);
    }
    r
}

/// A table laid out in segments that fit `max_width` columns: per segment a
/// rule, the rows (and, with `header` set, the stacked header block above
/// the rule), the rule again and a blank line; each column as wide as its
/// widest cell, capped at `column_width`; an optional painted title above
/// it all.
pub fn make_table(
    table: Vec<Vec<&str>>,
    header: bool,
    title: Option<&str>,
    column_width: Option<usize>,
    max_width: usize,
) -> (r: String)
    requires
        table@.len() > 0,
        forall|rr: int|
            0 <= rr < table@.len() ==> (#[trigger] table@[rr]@).len() == table@[0]@.len(),
        (match column_width {
            Some(w) => w >= 1,
            None => true,
        }),
        forall|c: int|
            0 <= c < table@[0]@.len() ==> col_max(
                tbl_views(table@),
                c,
                table@.len() as int,
            ) >= 1,
        cap_of(column_width) + 3 <= max_width,
        2 * max_width <= usize::MAX,
        cap_of(column_width) * row_max_len(
            tbl_views(table@)[0],
            tbl_views(table@)[0].len() as int,
        ) <= usize::MAX,
    ensures
        table_rendered(
            tbl_views(table@),
            header,
            opt_view(title),
            cap_of(column_width),
            max_width as nat,
            r@,
        ),
{
    let cap = match column_width {
        Some(w) => w,
        None => MAX_COL_WIDTH,
    };
    let col_widths = get_column_widths(&table, cap);
    proof {
        let tv = tbl_views(table@);
        assert(tv[0] == row_views(table@[0]@));
        assert(col_widths@ =~= widths_spec(tv, cap as nat));
        assert forall|tq: int| 0 <= tq < col_widths@.len() implies (#[trigger] col_widths@[tq])
            * row_max_len(tv[0], tv[0].len() as int) <= usize::MAX by {
            let rm = row_max_len(tv[0], tv[0].len() as int);
            assert(col_widths@[tq] * rm <= cap * rm) by (nonlinear_arith)
                requires
                    col_widths@[tq] <= cap,
                    rm >= 0,
            ;
        }
    }
    let segs = table_segs(&table, header, &col_widths, max_width, 0);
    match title {
        Some(t) => {
            let st = paint_blue_bold(t);
            let mut r = st;
            let ghost stv = r@;
            r.append("\n");
            r.append(segs.as_str());
            proof {
                assert(styled_as(stv, t@) && segs_rendered(
                    tbl_views(table@),
                    header,
                    widths_spec(tbl_views(table@), cap_of(column_width)),
                    max_width as nat,
                    0,
                    segs@,
                ) && r@ == stv + "\n"@ + segs@);
            }
            r
        },
        None => segs,
    }
}

/// A table of owned strings, laid out as `make_table` lays out one of
/// borrowed cells.
pub fn table_from_string(
    table: Vec<Vec<String>>,
    has_header: bool,
    title: Option<&str>,
    column_width: Option<usize>,
    max_width: usize,
) -> (r: String)
    requires
        table@.len() > 0,
        forall|rr: int|
            0 <= rr < table@.len() ==> (#[trigger] table@[rr]@).len() == table@[0]@.len(),
        (match column_width {
            Some(w) => w >= 1,
            None => true,
        }),
        forall|c: int|
            0 <= c < table@[0]@.len() ==> col_max(
                str_tbl_views(table@),
                c,
                table@.len() as int,
            ) >= 1,
        cap_of(column_width) + 3 <= max_width,
        2 * max_width <= usize::MAX,
        cap_of(column_width) * row_max_len(
            str_tbl_views(table@)[0],
            str_tbl_views(table@)[0].len() as int,
        ) <= usize::MAX,
    ensures
        table_rendered(
            str_tbl_views(table@),
            has_header,
            opt_view(title),
            cap_of(column_width),
            max_width as nat,
            r@,
        ),
{
    let mut borrowed: Vec<Vec<&str>> = Vec::new();
    let mut i: usize = 0;
    while i < table.len()
        invariant
            i <= table@.len(),
            borrowed@.len() == i,
            forall|rr: int|
                0 <= rr < i ==> row_views(#[trigger] borrowed@[rr]@) == str_tbl_views(table@)[rr],
            forall|rr: int| 0 <= rr < i ==> (#[trigger] borrowed@[rr]@).len() == table@[rr]@.len(),
        decreases table@.len() - i,
    {
        let row = &table[i];
        let mut brow: Vec<&str> = Vec::new();
        let mut j: usize = 0;
        while j < row.len()
            invariant
                j <= row@.len(),
                brow@.len() == j,
                row == &table@[i as int],
                i < table@.len(),
                forall|cc: int| 0 <= cc < j ==> (#[trigger] brow@[cc])@ == table@[i as int]@[cc]@,
            decreases row@.len() - j,
        {
            brow.push(row[j].as_str());
            j = j + 1;
        }
        borrowed.push(brow);
        proof {
            assert(row_views(borrowed@[i as int]@) =~= str_tbl_views(table@)[i as int]);
        }
        i = i + 1;
    }
    proof {
        assert(tbl_views(borrowed@) =~= str_tbl_views(table@));
        assert(tbl_views(borrowed@)[0] == str_tbl_views(table@)[0]);
    }
    make_table(borrowed, has_header, title, column_width, max_width)
}

/// The views of a table of owned strings.
pub open spec fn str_tbl_views(table: Seq<Vec<String>>) -> Seq<Seq<Seq<char>>> {
    table.map_values(|row: Vec<String>| row@.map_values(|s: String| s@))
}

/// Appends a whole table and a line break to `out`.
pub fn write_table(
    out: &mut String,
    data: Vec<Vec<&str>>,
    has_header: bool,
    title: Option<&str>,
    column_width: Option<usize>,
    max_width: usize,
)
    requires
        data@.len() > 0,
        forall|rr: int|
            0 <= rr < data@.len() ==> (#[trigger] data@[rr]@).len() == data@[0]@.len(),
        (match column_width {
            Some(w) => w >= 1,
            None => true,
        }),
        forall|c: int|
            0 <= c < data@[0]@.len() ==> col_max(tbl_views(data@), c, data@.len() as int) >= 1,
        cap_of(column_width) + 3 <= max_width,
        2 * max_width <= usize::MAX,
        cap_of(column_width) * row_max_len(
            tbl_views(data@)[0],
            tbl_views(data@)[0].len() as int,
        ) <= usize::MAX,
    ensures
        exists|piece: Seq<char>|
            table_rendered(
                tbl_views(data@),
                has_header,
                opt_view(title),
                cap_of(column_width),
                max_width as nat,
                piece,
            ) && final(out)@ == old(out)@ + piece + "\n"@,
{
    let piece = make_table(data, has_header, title, column_width, max_width);
    out.append(piece.as_str());
    out.append("\n");
}

} // verus!
