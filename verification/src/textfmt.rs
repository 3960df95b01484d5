//! Plain text building blocks shared by the formatting modules: repeating a
//! unit and padding a string on the right to a column width, both measured
//! in characters.

use vstd::prelude::*;

verus! {

/// `unit` repeated `n` times.
pub open spec fn repeat_text(unit: Seq<char>, n: nat) -> Seq<char>
    decreases n,
{
    if n == 0 {
        Seq::empty()
    } else {
        repeat_text(unit, (n - 1) as nat) + unit
    }
}

/// `s` filled on the right with `fill` up to `w` characters; a string at or
/// beyond the width is left as it is.
pub open spec fn pad_right_spec(s: Seq<char>, w: nat, fill: Seq<char>) -> Seq<char> {
    if s.len() >= w {
        s
    } else {
        s + repeat_text(fill, (w - s.len()) as nat)
    }
}

/// Repeating a unit `n` times gives `n` times its length.
pub proof fn lemma_repeat_text_len(unit: Seq<char>, n: nat)
    ensures
        repeat_text(unit, n).len() == n * unit.len(),
    decreases n,
{
    let l = unit.len();
    if n > 0 {
        let m = (n - 1) as nat;
        lemma_repeat_text_len(unit, m);
        assert(repeat_text(unit, n).len() == m * l + l);
        assert(m * l + l == (m + 1) * l) by (nonlinear_arith);
        assert((m + 1) * l == n * l);
    } else {
        assert(repeat_text(unit, n).len() == 0);
        assert(n * l == 0) by (nonlinear_arith)
            requires
                n == 0,
        ;
    }
}

/// Padding with a single-character fill reaches exactly the target width.
pub proof fn lemma_pad_right_len(s: Seq<char>, w: nat, fill: Seq<char>)
    requires
        fill.len() == 1,
    ensures
        pad_right_spec(s, w, fill).len() == (if s.len() >= w {
            s.len()
        } else {
            w
        }),
{
    if s.len() < w {
        lemma_repeat_text_len(fill, (w - s.len()) as nat);
    }
}

/// `unit` repeated `n` times.
pub fn repeat_str(unit: &str, n: usize) -> (r: String)
    ensures
        r@ == repeat_text(unit@, n as nat),
{
    let mut r = String::new();
    let mut i: usize = 0;
    while i < n
        invariant
            i <= n,
            r@ == repeat_text(unit@, i as nat),
        decreases n - i,
    {
        r.append(unit);
        i = i + 1;
    }
    r
}

/// Pads `s` on the right with the single-character `fill` to `w` characters.
pub fn pad_right(s: String, w: usize, fill: &str) -> (r: String)
    requires
        fill@.len() == 1,
    ensures
        r@ == pad_right_spec(s@, w as nat, fill@),
{
    let ghost s0 = s@;
    let mut r = s;
    let mut n = r.as_str().unicode_len();
    if n >= w {
        return r;
    }
    while n < w
        invariant
            fill@.len() == 1,
            n == r@.len(),
            n <= w,
            s0.len() <= n,
            r@ == s0 + repeat_text(fill@, (n - s0.len()) as nat),
        decreases w - n,
    {
        r.append(fill);
        proof {
            assert(r@ =~= s0 + repeat_text(fill@, (n + 1 - s0.len()) as nat));
        }
        n = n + 1;
    }
    r
}

} // verus!
