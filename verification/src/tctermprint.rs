//! Formatting helpers in the custom-colour palette: key/value lines, error,
//! warning and info text, titles and horizontal rules, each returned as a
//! string or appended to a caller-supplied buffer.
//!
//! Each helper paints its parts through the trusted wrappers of `style`, so
//! its contract names the painted pieces existentially: the layout around
//! them is exact, and each piece strips back to the text that was painted.

use vstd::prelude::*;

use crate::style::styled_as;
use crate::style::strip_ansi;
use crate::style::paint_custom;
use crate::style::paint_custom_bold;
use crate::textfmt::pad_right;
use crate::textfmt::pad_right_spec;

verus! {

pub const LONG: usize = 120;

pub const MEDIUM: usize = 80;

pub const SHORT: usize = 30;

/// The width a key column falls back to: the key's own byte length.
pub open spec fn width_or_key_len(key: &str, width1: Option<usize>) -> nat {
    match width1 {
        Some(w) => w as nat,
        None => key.len() as nat,
    }
}

/// `out` is a padded painted key, `: `, and a painted value.
pub open spec fn kv_rendered(key: Seq<char>, value: Seq<char>, width: nat, out: Seq<char>) -> bool {
    exists|sk: Seq<char>, sv: Seq<char>|
        styled_as(sk, key) && styled_as(sv, value) && out == pad_right_spec(sk, width, " "@)
            + ": "@ + sv
}

/// The key padded to the given width (or to its own length), a colon and
/// the value, key and value painted in the info and variable colours.
pub fn key_value(key: &str, value: &str, width1: Option<usize>) -> (r: String)
    ensures
        kv_rendered(key@, value@, width_or_key_len(key, width1), r@),
{
    let width = match width1 {
        Some(w) => w,
        None => key.len(),
    };
    let sk = paint_custom(key, 0, 112, 242);
    let sv = paint_custom(value, 137, 209, 255);
    let ghost skv = sk@;
    proof {
        reveal_strlit(" ");
    }
    let mut r = pad_right(sk, width, " ");
    r.append(": ");
    r.append(sv.as_str());
    proof {
        assert(styled_as(skv, key@) && styled_as(sv@, value@) && r@ == pad_right_spec(
            skv,
            width as nat,
            " "@,
        ) + ": "@ + sv@);
    }
    r
}

/// `out` is `ERROR: ` followed by the painted message.
pub open spec fn error_rendered(message: Seq<char>, out: Seq<char>) -> bool {
    exists|sm: Seq<char>| styled_as(sm, message) && out == "ERROR: "@ + sm
}

/// `ERROR: ` and the message in the error colour.
pub fn error(message: &str) -> (r: String)
    ensures
        error_rendered(message@, r@),
{
    let sm = paint_custom(message, 210, 10, 10);
    let mut r = "ERROR: ".to_owned();
    r.append(sm.as_str());
    proof {
        assert(styled_as(sm@, message@) && r@ == "ERROR: "@ + sm@);
    }
    r
}

/// `out` is `Warning: ` followed by the painted message.
pub open spec fn warning_rendered(message: Seq<char>, out: Seq<char>) -> bool {
    exists|sm: Seq<char>| styled_as(sm, message) && out == "Warning: "@ + sm
}

/// `Warning: ` and the message in the warning colour.
pub fn warning(message: &str) -> (r: String)
    ensures
        warning_rendered(message@, r@),
{
    let sm = paint_custom(message, 255, 243, 184);
    let mut r = "Warning: ".to_owned();
    r.append(sm.as_str());
    proof {
        assert(styled_as(sm@, message@) && r@ == "Warning: "@ + sm@);
    }
    r
}

/// `out` is a padded painted key directly followed by a painted value.
pub open spec fn info_rendered(key: Seq<char>, value: Seq<char>, width: nat, out: Seq<char>) -> bool {
    exists|sk: Seq<char>, sv: Seq<char>|
        styled_as(sk, key) && styled_as(sv, value) && out == pad_right_spec(sk, width, " "@) + sv
}

/// The key padded to the given width and the value, with no separator.
pub fn info(key: &str, value: &str, width1: Option<usize>) -> (r: String)
    ensures
        info_rendered(key@, value@, width_or_key_len(key, width1), r@),
{
    let width = match width1 {
        Some(w) => w,
        None => key.len(),
    };
    let sk = paint_custom(key, 0, 112, 242);
    let sv = paint_custom(value, 137, 209, 255);
    let ghost skv = sk@;
    proof {
        reveal_strlit(" ");
    }
    let mut r = pad_right(sk, width, " ");
    r.append(sv.as_str());
    proof {
        assert(styled_as(skv, key@) && styled_as(sv@, value@) && r@ == pad_right_spec(
            skv,
            width as nat,
            " "@,
        ) + sv@);
    }
    r
}

/// Appends an info line (padded key, value, line break) to `out`.
pub fn write_info(out: &mut String, key: &str, value: &str, width1: Option<usize>)
    ensures
        exists|piece: Seq<char>|
            info_rendered(key@, value@, width_or_key_len(key, width1), piece) && final(out)@
                == old(out)@ + piece + "\n"@,
{
    let piece = info(key, value, width1);
    out.append(piece.as_str());
    out.append("\n");
}

/// A message in the info colour.
pub fn msg(message: &str) -> (r: String)
    ensures
        styled_as(r@, message@),
{
    paint_custom(message, 0, 112, 242)
}

/// Appends a painted message and a line break to `out`.
pub fn write_msg(out: &mut String, message: &str)
    ensures
        exists|sm: Seq<char>|
            styled_as(sm, message@) && final(out)@ == old(out)@ + sm + "\n"@,
{
    let sm = msg(message);
    out.append(sm.as_str());
    out.append("\n");
}

/// Appends a bold painted title and a line break to `out`.
pub fn write_title(out: &mut String, message: &str)
    ensures
        exists|sm: Seq<char>|
            styled_as(sm, message@) && final(out)@ == old(out)@ + sm + "\n"@,
{
    let sm = paint_custom_bold(message, 0, 112, 242);
    out.append(sm.as_str());
    out.append("\n");
}

/// `piece` is a painted empty string padded with `fill` to `width`, then a
/// line break: a horizontal rule.
pub open spec fn rule_rendered(width: nat, fill: Seq<char>, piece: Seq<char>) -> bool {
    exists|se: Seq<char>|
        strip_ansi(se) == Seq::<char>::empty() && piece == pad_right_spec(se, width, fill) + "\n"@
}

/// Appends a single rule of `⎯` to `out`, `MEDIUM` wide by default.
pub fn write_line(out: &mut String, length: Option<usize>)
    ensures
        exists|piece: Seq<char>|
            rule_rendered(
                (match length {
                    Some(w) => w as nat,
                    None => MEDIUM as nat,
                }),
                "⎯"@,
                piece,
            ) && final(out)@ == old(out)@ + piece,
{
    let width = match length {
        Some(w) => w,
        None => MEDIUM,
    };
    let se = paint_custom("", 137, 209, 255);
    let ghost sev = se@;
    proof {
        reveal_strlit("⎯");
        reveal_strlit("");
        assert(strip_ansi(sev) == strip_ansi(""@));
        assert(""@ =~= Seq::<char>::empty());
    }
    let ruled = pad_right(se, width, "⎯");
    out.append(ruled.as_str());
    out.append("\n");
    proof {
        assert(rule_rendered(width as nat, "⎯"@, ruled@ + "\n"@));
        assert(final(out)@ =~= old(out)@ + (ruled@ + "\n"@));
    }
}

/// Appends a double rule of `═` to `out`, `MEDIUM` wide by default.
pub fn write_double_line(out: &mut String, length: Option<usize>)
    ensures
        exists|piece: Seq<char>|
            rule_rendered(
                (match length {
                    Some(w) => w as nat,
                    None => MEDIUM as nat,
                }),
                "═"@,
                piece,
            ) && final(out)@ == old(out)@ + piece,
{
    let width = match length {
        Some(w) => w,
        None => MEDIUM,
    };
    let se = paint_custom("", 137, 209, 255);
    let ghost sev = se@;
    proof {
        reveal_strlit("═");
        reveal_strlit("");
        assert(strip_ansi(sev) == strip_ansi(""@));
        assert(""@ =~= Seq::<char>::empty());
    }
    let ruled = pad_right(se, width, "═");
    out.append(ruled.as_str());
    out.append("\n");
    proof {
        assert(rule_rendered(width as nat, "═"@, ruled@ + "\n"@));
        assert(final(out)@ =~= old(out)@ + (ruled@ + "\n"@));
    }
}

/// An HTTP request method.
pub enum HttpMethod {
    GET,
    PUT,
    DELETE,
    POST,
}

/// The canonical upper-case text of a method.
pub open spec fn method_text(m: HttpMethod) -> Seq<char> {
    match m {
        HttpMethod::GET => "GET"@,
        HttpMethod::POST => "POST"@,
        HttpMethod::PUT => "PUT"@,
        HttpMethod::DELETE => "DELETE"@,
    }
}

impl HttpMethod {
    pub fn as_str(&self) -> (r: &'static str)
        ensures
            r@ == method_text(*self),
    {
        match self {
            HttpMethod::GET => "GET",
            HttpMethod::POST => "POST",
            HttpMethod::PUT => "PUT",
            HttpMethod::DELETE => "DELETE",
        }
    }
}

/// Whether a tree line is an inner item or the last one.
pub enum TreeBlock {
    Item,
    End,
}

} // verus!
