//! Numerals: digits, their positional value, and how a number is written
//! in a radix.

use crate::text::characters;
use vstd::prelude::*;

verus! {

/// The value of `c` as a digit: `0`-`9` count 0 to 9, letters of either
/// case count 10 to 35. Any other character gets 36, which is a digit in
/// no radix.
pub open spec fn digit_of(c: char) -> nat {
    if '0' <= c <= '9' {
        (c as nat - '0' as nat) as nat
    } else if 'a' <= c <= 'z' {
        (c as nat - 'a' as nat + 10) as nat
    } else if 'A' <= c <= 'Z' {
        (c as nat - 'A' as nat + 10) as nat
    } else {
        36
    }
}

/// The lowercase digit that stands for `d`, for `d < 36`.
pub open spec fn digit_char(d: nat) -> char {
    if d < 10 {
        ('0' as nat + d) as char
    } else {
        ('a' as nat + d - 10) as char
    }
}

/// The value of the digits `s` read in `radix`, most significant first.
pub open spec fn positional(s: Seq<char>, radix: nat) -> nat
    decreases s.len(),
{
    if s.len() == 0 {
        0
    } else {
        positional(s.drop_last(), radix) * radix + digit_of(s.last())
    }
}

/// Every character of `s` is a digit in `radix`.
pub open spec fn all_digits(s: Seq<char>, radix: nat) -> bool {
    forall|i: int| 0 <= i < s.len() ==> digit_of(#[trigger] s[i]) < radix
}

/// `s` without one leading `+`, if it has one.
pub open spec fn unsigned_part(s: Seq<char>) -> Seq<char> {
    if s.len() > 0 && s[0] == '+' {
        s.subrange(1, s.len() as int)
    } else {
        s
    }
}

/// `s` is an unsigned numeral in `radix`: an optional `+`, then one or
/// more digits of that radix, and nothing else.
pub open spec fn is_numeral(s: Seq<char>, radix: nat) -> bool {
    unsigned_part(s).len() > 0 && all_digits(unsigned_part(s), radix)
}

/// The number that the numeral `s` stands for.
pub open spec fn numeral_value(s: Seq<char>, radix: nat) -> nat {
    positional(unsigned_part(s), radix)
}

/// What `s` parses to as a number that fits in eight bits: the value of
/// the numeral if `s` is one and the value is at most 255.
pub open spec fn parse_byte(s: Seq<char>, radix: nat) -> Option<u8> {
    if is_numeral(s, radix) && numeral_value(s, radix) <= 255 {
        Some(numeral_value(s, radix) as u8)
    } else {
        None
    }
}

/// How `n` is written in `radix`, for a radix from 2 to 36: lowercase
/// digits, most significant first, no leading zero but for zero itself.
pub open spec fn numeral(n: nat, radix: nat) -> Seq<char>
    decreases n,
    via numeral_decreases
{
    if radix < 2 || n < radix {
        seq![digit_char(n)]
    } else {
        numeral(n / radix, radix).push(digit_char(n % radix))
    }
}

#[via_fn]
proof fn numeral_decreases(n: nat, radix: nat) {
    if !(radix < 2 || n < radix) {
        assert(n / radix < n) by (nonlinear_arith)
            requires
                radix >= 2,
                n >= radix,
        ;
    }
}

/// Extending a digit string never lowers its value.
pub proof fn lemma_positional_prefix(s: Seq<char>, k: int, radix: nat)
    requires
        0 <= k <= s.len(),
        radix >= 1,
    ensures
        positional(s.subrange(0, k), radix) <= positional(s, radix),
    decreases s.len() - k,
{
    if k == s.len() {
        assert(s.subrange(0, k) =~= s);
    } else {
        lemma_positional_prefix(s, k + 1, radix);
        let t = s.subrange(0, k + 1);
        assert(t.drop_last() =~= s.subrange(0, k));
        let v = positional(s.subrange(0, k), radix);
        assert(v * radix >= v) by (nonlinear_arith)
            requires
                radix >= 1,
                v >= 0,
        ;
    }
}

/// A digit's character stands for that digit.
pub proof fn lemma_digit_char_value(d: nat)
    requires
        d < 36,
    ensures
        digit_of(digit_char(d)) == d,
        digit_char(d) != '+',
{
}

/// The way a number is written is a string of digits of the radix, and
/// its value is the number.
pub proof fn lemma_numeral_digits(n: nat, radix: nat)
    requires
        2 <= radix <= 36,
    ensures
        numeral(n, radix).len() >= 1,
        numeral(n, radix)[0] != '+',
        all_digits(numeral(n, radix), radix),
        positional(numeral(n, radix), radix) == n,
    decreases n,
{
    let s = numeral(n, radix);
    if n < radix {
        lemma_digit_char_value(n);
        assert(s.drop_last() =~= Seq::<char>::empty());
        assert(positional(s.drop_last(), radix) == 0);
        assert(positional(s, radix) == 0 * radix + digit_of(s.last()));
    } else {
        let q = n / radix;
        let r = n % radix;
        assert(q < n && r < radix && q * radix + r == n) by (nonlinear_arith)
            requires
                radix >= 2,
                n >= radix,
                q == n / radix,
                r == n % radix,
        ;
        lemma_numeral_digits(q, radix);
        lemma_digit_char_value(r);
        let head = numeral(q, radix);
        assert(s == head.push(digit_char(r)));
        assert(s.drop_last() =~= head);
        assert(s[0] == head[0]);
        assert forall|i: int| 0 <= i < s.len() implies digit_of(#[trigger] s[i]) < radix by {
            if i < head.len() {
                assert(s[i] == head[i]);
            }
        }
    }
}

/// A number that fits in eight bits is read back from the way it is
/// written.
pub proof fn lemma_parse_numeral(n: nat, radix: nat)
    requires
        2 <= radix <= 36,
        n <= 255,
    ensures
        parse_byte(numeral(n, radix), radix) == Some(n as u8),
{
    lemma_numeral_digits(n, radix);
}

/// A single character is a numeral exactly if it is a digit of the
/// radix, and then its value is that digit.
pub proof fn lemma_parse_single(c: char, radix: nat)
    requires
        2 <= radix <= 36,
    ensures
        parse_byte(seq![c], radix) == if digit_of(c) < radix {
            Some(digit_of(c) as u8)
        } else {
            None
        },
{
    let s = seq![c];
    if c == '+' {
        assert(unsigned_part(s).len() == 0);
    } else {
        assert(unsigned_part(s) == s);
        assert(s.drop_last() =~= Seq::<char>::empty());
        assert(positional(s.drop_last(), radix) == 0);
        assert(positional(s, radix) == 0 * radix + digit_of(c));
        if digit_of(c) < radix {
            assert(all_digits(s, radix));
        } else {
            assert(s[0] == c);
        }
    }
}

/// The value of `c` as a digit, 36 if it is none.
pub fn digit_value(c: char) -> (d: u8)
    ensures
        d == digit_of(c),
{
    if '0' <= c && c <= '9' {
        (c as u32 - '0' as u32) as u8
    } else if 'a' <= c && c <= 'z' {
        (c as u32 - 'a' as u32 + 10) as u8
    } else if 'A' <= c && c <= 'Z' {
        (c as u32 - 'A' as u32 + 10) as u8
    } else {
        36
    }
}

/// The lowercase digit that stands for `d`.
pub fn digit_glyph(d: u8) -> (c: char)
    requires
        d < 36,
    ensures
        c == digit_char(d as nat),
{
    if d < 10 {
        ('0' as u8 + d) as char
    } else {
        ('a' as u8 + (d - 10)) as char
    }
}

/// Reads `s` as an unsigned numeral in `radix` that fits in eight bits:
/// an optional `+`, then digits of the radix, of a value of at most 255.
pub fn parse_u8(s: &str, radix: u8) -> (res: Option<u8>)
    requires
        2 <= radix <= 36,
    ensures
        res == parse_byte(s@, radix as nat),
{
    let chars = characters(s);
    let n = chars.len();
    let start: usize = if n > 0 && chars[0] == '+' {
        1
    } else {
        0
    };
    if start == n {
        return None;
    }
    let ghost body = unsigned_part(s@);
    let mut acc: u8 = 0;
    let mut i: usize = start;
    while i < n
        invariant
            2 <= radix <= 36,
            chars@ == s@,
            n == chars.len(),
            start <= i <= n,
            start < n,
            body == s@.subrange(start as int, n as int),
            body == unsigned_part(s@),
            all_digits(body.subrange(0, i - start), radix as nat),
            acc == positional(body.subrange(0, i - start), radix as nat),
        decreases n - i,
    {
        let c = chars[i];
        let d = digit_value(c);
        let ghost prefix = body.subrange(0, i - start);
        let ghost next = body.subrange(0, i - start + 1);
        proof {
            assert(next.drop_last() =~= prefix);
            assert(next.last() == c);
        }
        if d >= radix {
            assert(!all_digits(body, radix as nat)) by {
                assert(body[i - start] == c);
            }
            return None;
        }
        assert(acc * radix <= 255 * 36) by (nonlinear_arith)
            requires
                acc <= 255,
                radix <= 36,
        ;
        let wide: u32 = acc as u32 * radix as u32 + d as u32;
        assert(wide == positional(next, radix as nat));
        if wide > 255 {
            proof {
                lemma_positional_prefix(body, i - start + 1, radix as nat);
            }
            return None;
        }
        assert(all_digits(next, radix as nat)) by {
            assert forall|j: int| 0 <= j < next.len() implies digit_of(#[trigger] next[j])
                < radix as nat by {
                if j < prefix.len() {
                    assert(next[j] == prefix[j]);
                }
            }
        }
        acc = wide as u8;
        i = i + 1;
    }
    assert(body.subrange(0, n - start) =~= body);
    Some(acc)
}

/// Appends `n`, written in `radix`, to `out`.
pub fn push_numeral(out: &mut String, n: u8, radix: u8)
    requires
        2 <= radix <= 36,
    ensures
        final(out)@ == old(out)@ + numeral(n as nat, radix as nat),
    decreases n,
{
    if n < radix {
        out.push(digit_glyph(n));
        assert(out@ =~= old(out)@ + numeral(n as nat, radix as nat));
    } else {
        assert(n / radix < n) by (nonlinear_arith)
            requires
                radix >= 2,
                n >= radix,
        ;
        push_numeral(out, n / radix, radix);
        out.push(digit_glyph(n % radix));
        assert(out@ =~= old(out)@ + numeral(n as nat, radix as nat));
    }
}

} // verus!
