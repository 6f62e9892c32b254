//! Account addresses as plain values.
//!
//! An address is 160 bits wide, held here as three machine words so that the
//! verifier can reason about equality structurally.

use vstd::prelude::*;
use vstd::arithmetic::div_mod::lemma_div_denominator;
use crate::wallet::{is_hex_digit, strip_hex_prefix};

verus! {

/// The numeric value of a hexadecimal digit.
pub open spec fn hex_digit_val(c: char) -> u32 {
    if 48 <= c as u32 && c as u32 <= 57 {
        (c as u32 - 48) as u32
    } else if 97 <= c as u32 && c as u32 <= 102 {
        (c as u32 - 87) as u32
    } else if 65 <= c as u32 && c as u32 <= 70 {
        (c as u32 - 55) as u32
    } else {
        0
    }
}

/// The value of a big-endian string of hexadecimal digits.
pub open spec fn hex_seq_val(s: Seq<char>) -> nat
    decreases s.len(),
{
    if s.len() == 0 {
        0
    } else {
        (16 * hex_seq_val(s.drop_last()) + hex_digit_val(s.last())) as nat
    }
}

/// Sixteen to the `n`th power.
pub open spec fn pow16(n: nat) -> nat
    decreases n,
{
    if n == 0 {
        1nat
    } else {
        16 * pow16((n - 1) as nat)
    }
}

proof fn lemma_pow16_pos(n: nat)
    ensures
        pow16(n) >= 1,
    decreases n,
{
    if n > 0 {
        lemma_pow16_pos((n - 1) as nat);
    }
}

proof fn lemma_pow16_mono(a: nat, b: nat)
    requires
        a <= b,
    ensures
        pow16(a) <= pow16(b),
    decreases b,
{
    if a < b {
        lemma_pow16_mono(a, (b - 1) as nat);
        lemma_pow16_pos((b - 1) as nat);
    }
}

/// An `n`-digit value is below sixteen to the `n`th.
proof fn lemma_hex_seq_val_bound(s: Seq<char>)
    requires
        forall|i: int| 0 <= i < s.len() ==> is_hex_digit(#[trigger] s[i]),
    ensures
        hex_seq_val(s) < pow16(s.len() as nat),
    decreases s.len(),
{
    if s.len() > 0 {
        assert forall|i: int| 0 <= i < s.drop_last().len() implies is_hex_digit(
            #[trigger] s.drop_last()[i],
        ) by {
            assert(s.drop_last()[i] == s[i]);
        }
        lemma_hex_seq_val_bound(s.drop_last());
        assert(hex_digit_val(s.last()) <= 15);
    }
}

/// The numeric value of one hexadecimal digit.
fn hex_digit_value(c: char) -> (r: u32)
    requires
        is_hex_digit(c),
    ensures
        r == hex_digit_val(c),
        r <= 15,
{
    let u = c as u32;
    if 48 <= u && u <= 57 {
        u - 48
    } else if 97 <= u && u <= 102 {
        u - 87
    } else {
        u - 55
    }
}

/// Reads `count` hexadecimal digits of `s` starting at `start`, big-endian.
fn parse_hex_word(s: &str, start: usize, count: usize) -> (r: u64)
    requires
        start + count <= s@.len(),
        start + count <= usize::MAX,
        count <= 16,
        forall|k: int| start <= k < start + count ==> is_hex_digit(#[trigger] s@[k]),
    ensures
        r == hex_seq_val(s@.subrange(start as int, (start + count) as int)),
{
    proof {
        assert(pow16(16) == 0x10000000000000000) by {
            reveal_with_fuel(pow16, 17);
        }
        assert(s@.subrange(start as int, start as int).len() == 0);
    }
    let mut acc: u64 = 0;
    let mut i: usize = 0;
    while i < count
        invariant
            0 <= i <= count,
            count <= 16,
            start + count <= s@.len(),
            start + count <= usize::MAX,
            pow16(16) == 0x10000000000000000,
            forall|k: int| start <= k < start + count ==> is_hex_digit(#[trigger] s@[k]),
            acc == hex_seq_val(s@.subrange(start as int, (start + i) as int)),
            acc < pow16(i as nat),
        decreases count - i,
    {
        let ghost pref = s@.subrange(start as int, (start + i) as int);
        proof {
            assert(pow16((i + 1) as nat) == 16 * pow16(i as nat));
            lemma_pow16_mono((i + 1) as nat, 16);
        }
        let c = s.get_char(start + i);
        let d = hex_digit_value(c);
        proof {
            assert(16 * (acc as nat) + (d as nat) < pow16((i + 1) as nat));
        }
        acc = acc * 16 + (d as u64);
        proof {
            let ext = s@.subrange(start as int, (start + i + 1) as int);
            assert(ext.drop_last() =~= pref);
            assert(ext.last() == s@[start + i]);
        }
        i = i + 1;
    }
    acc
}

/// The lowercase hexadecimal digit of value `d`.
pub open spec fn hex_digit_char(d: int) -> char {
    "0123456789abcdef"@[d]
}

/// The big-endian lowercase hexadecimal rendering of the low `digits`
/// digits of `w`.
pub open spec fn render_word_spec(w: nat, digits: nat) -> Seq<char>
    decreases digits,
{
    if digits == 0 {
        Seq::<char>::empty()
    } else {
        seq![hex_digit_char(((w / pow16((digits - 1) as nat)) % 16) as int)] + render_word_spec(
            w,
            (digits - 1) as nat,
        )
    }
}

/// The textual form of an address: "0x" and 40 lowercase hexadecimal
/// digits.
pub open spec fn render_address_spec(a: Address) -> Seq<char> {
    "0x"@ + render_word_spec(a.hi as nat, 16) + render_word_spec(a.mid as nat, 16)
        + render_word_spec(a.lo as nat, 8)
}

/// Renders the low `digits` hexadecimal digits of `w`, big-endian.
fn render_hex_word(w: u64, digits: usize) -> (r: String)
    requires
        digits == 16 || digits == 8,
    ensures
        r@ == render_word_spec(w as nat, digits as nat),
{
    let mut p: u64 = if digits == 16 {
        0x1000000000000000
    } else {
        0x10000000
    };
    proof {
        assert(p == pow16((digits - 1) as nat)) by {
            reveal_with_fuel(pow16, 17);
        }
    }
    let mut out = String::new();
    proof {
        assert(render_word_spec(w as nat, digits as nat) =~= out@ + render_word_spec(
            w as nat,
            digits as nat,
        ));
    }
    let mut i: usize = 0;
    while i < digits
        invariant
            0 <= i <= digits,
            digits == 16 || digits == 8,
            i < digits ==> p == pow16((digits - 1 - i) as nat),
            render_word_spec(w as nat, digits as nat) == out@ + render_word_spec(
                w as nat,
                (digits - i) as nat,
            ),
        decreases digits - i,
    {
        let hex_digits = "0123456789abcdef";
        proof {
            reveal_strlit("0123456789abcdef");
            lemma_pow16_pos((digits - 1 - i) as nat);
        }
        let d = ((w / p) % 16) as usize;
        let ch = hex_digits.substring_char(d, d + 1);
        let ghost prev = out@;
        out.append(ch);
        proof {
            assert(ch@ =~= seq![hex_digit_char(d as int)]);
            let m = (digits - 1 - i) as nat;
            assert((w as nat) / pow16(m) % 16 == d as nat);
            assert(render_word_spec(w as nat, (digits - i) as nat) == seq![
                hex_digit_char(d as int),
            ] + render_word_spec(w as nat, (digits - i - 1) as nat));
            assert(out@ + render_word_spec(w as nat, (digits - i - 1) as nat)
                =~= prev + render_word_spec(w as nat, (digits - i) as nat));
        }
        if i + 1 < digits {
            proof {
                let m = (digits - 1 - i) as nat;
                assert(pow16(m) == 16 * pow16((m - 1) as nat));
                assert(16 * pow16((m - 1) as nat) / 16 == pow16((m - 1) as nat)) by (nonlinear_arith);
            }
            p = p / 16;
        }
        i = i + 1;
    }
    proof {
        assert(render_word_spec(w as nat, 0) =~= Seq::<char>::empty());
        assert(out@ + Seq::<char>::empty() =~= out@);
    }
    out
}

/// Renders an address as "0x" and 40 lowercase hexadecimal digits.
pub fn render_address(a: &Address) -> (r: String)
    ensures
        r@ == render_address_spec(*a),
{
    let hi = render_hex_word(a.hi, 16);
    let mid = render_hex_word(a.mid, 16);
    let lo = render_hex_word(a.lo as u64, 8);
    let s = String::from_str("0x").concat(hi.as_str());
    let s = s.concat(mid.as_str());
    let s = s.concat(lo.as_str());
    proof {
        assert(s@ =~= render_address_spec(*a));
    }
    s
}

proof fn lemma_hex_digit_char_val(d: int)
    requires
        0 <= d < 16,
    ensures
        is_hex_digit(hex_digit_char(d)),
        hex_digit_val(hex_digit_char(d)) == d,
{
    reveal_strlit("0123456789abcdef");
    if d == 0 {
        assert(hex_digit_char(0) == '0');
    } else if d == 1 {
        assert(hex_digit_char(1) == '1');
    } else if d == 2 {
        assert(hex_digit_char(2) == '2');
    } else if d == 3 {
        assert(hex_digit_char(3) == '3');
    } else if d == 4 {
        assert(hex_digit_char(4) == '4');
    } else if d == 5 {
        assert(hex_digit_char(5) == '5');
    } else if d == 6 {
        assert(hex_digit_char(6) == '6');
    } else if d == 7 {
        assert(hex_digit_char(7) == '7');
    } else if d == 8 {
        assert(hex_digit_char(8) == '8');
    } else if d == 9 {
        assert(hex_digit_char(9) == '9');
    } else if d == 10 {
        assert(hex_digit_char(10) == 'a');
    } else if d == 11 {
        assert(hex_digit_char(11) == 'b');
    } else if d == 12 {
        assert(hex_digit_char(12) == 'c');
    } else if d == 13 {
        assert(hex_digit_char(13) == 'd');
    } else if d == 14 {
        assert(hex_digit_char(14) == 'e');
    } else {
        assert(hex_digit_char(15) == 'f');
    }
}

proof fn lemma_render_word_len(w: nat, n: nat)
    ensures
        render_word_spec(w, n).len() == n,
    decreases n,
{
    if n > 0 {
        lemma_render_word_len(w, (n - 1) as nat);
    }
}

proof fn lemma_render_word_structure(w: nat, n: nat)
    requires
        n > 0,
    ensures
        render_word_spec(w, n).last() == hex_digit_char((w % 16) as int),
        render_word_spec(w, n).drop_last() =~= render_word_spec(w / 16, (n - 1) as nat),
    decreases n,
{
    lemma_render_word_len(w, n);
    lemma_render_word_len(w, (n - 1) as nat);
    lemma_render_word_len(w / 16, (n - 1) as nat);
    if n == 1 {
        assert(pow16(0) == 1);
        assert(w / 1 == w);
    } else {
        lemma_render_word_structure(w, (n - 1) as nat);
        lemma_pow16_pos((n - 2) as nat);
        lemma_div_denominator(w as int, 16, pow16((n - 2) as nat) as int);
        assert(pow16((n - 1) as nat) == 16 * pow16((n - 2) as nat));
        assert((w / 16) / pow16((n - 2) as nat) == w / pow16((n - 1) as nat));
        lemma_render_word_structure(w / 16, (n - 1) as nat);
    }
}

proof fn lemma_render_word_val(w: nat, n: nat)
    requires
        w < pow16(n),
    ensures
        render_word_spec(w, n).len() == n,
        hex_seq_val(render_word_spec(w, n)) == w,
        forall|i: int| 0 <= i < n ==> is_hex_digit(#[trigger] render_word_spec(w, n)[i]),
    decreases n,
{
    lemma_render_word_len(w, n);
    if n == 0 {
    } else {
        lemma_render_word_structure(w, n);
        assert(pow16(n) == 16 * pow16((n - 1) as nat));
        assert(w / 16 < pow16((n - 1) as nat)) by (nonlinear_arith)
            requires
                w < 16 * pow16((n - 1) as nat),
        ;
        lemma_render_word_val(w / 16, (n - 1) as nat);
        lemma_hex_digit_char_val((w % 16) as int);
        let s = render_word_spec(w, n);
        assert(hex_seq_val(s.drop_last()) == w / 16);
        assert(hex_seq_val(s) == 16 * (w / 16) + (w % 16));
        assert forall|i: int| 0 <= i < n implies is_hex_digit(#[trigger] s[i]) by {
            if i < n - 1 {
                assert(s[i] == s.drop_last()[i]);
                assert(s.drop_last()[i] == render_word_spec(w / 16, (n - 1) as nat)[i]);
            } else {
                assert(s[i] == s.last());
            }
        }
    }
}

/// Law: rendering and parsing round-trip — the rendering of an address is a
/// well-formed textual address whose three word slices evaluate back to
/// exactly the address's words, so parsing the rendered text returns the
/// same address.
pub proof fn lemma_render_parse_roundtrip(a: Address)
    ensures
        address_well_formed(render_address_spec(a)),
        hex_seq_val(strip_hex_prefix(render_address_spec(a)).subrange(0, 16)) == a.hi,
        hex_seq_val(strip_hex_prefix(render_address_spec(a)).subrange(16, 32)) == a.mid,
        hex_seq_val(strip_hex_prefix(render_address_spec(a)).subrange(32, 40)) == a.lo,
{
    reveal_strlit("0x");
    assert(pow16(16) == 0x10000000000000000 && pow16(8) == 0x100000000) by {
        reveal_with_fuel(pow16, 17);
    }
    let h = render_word_spec(a.hi as nat, 16);
    let m = render_word_spec(a.mid as nat, 16);
    let l = render_word_spec(a.lo as nat, 8);
    lemma_render_word_val(a.hi as nat, 16);
    lemma_render_word_val(a.mid as nat, 16);
    lemma_render_word_val(a.lo as nat, 8);
    let r = render_address_spec(a);
    assert(r.len() == 42);
    assert(r[0] == '0' && r[1] == 'x');
    let t = strip_hex_prefix(r);
    assert(t =~= h + m + l);
    assert(t.subrange(0, 16) =~= h);
    assert(t.subrange(16, 32) =~= m);
    assert(t.subrange(32, 40) =~= l);
    assert forall|i: int| 0 <= i < t.len() implies is_hex_digit(#[trigger] t[i]) by {
        if i < 16 {
            assert(t[i] == h[i]);
        } else if i < 32 {
            assert(t[i] == m[i - 16]);
        } else {
            assert(t[i] == l[i - 32]);
        }
    }
}

/// A well-formed textual account address: after stripping the optional "0x"
/// prefix, exactly 40 hexadecimal digits.
pub open spec fn address_well_formed(s: Seq<char>) -> bool {
    &&& strip_hex_prefix(s).len() == 40
    &&& (forall|i: int|
        0 <= i < strip_hex_prefix(s).len() ==> is_hex_digit(#[trigger] strip_hex_prefix(s)[i]))
}

/// Parses a textual account address, with or without the "0x" prefix, into
/// its three words; `None` exactly on malformed input.
pub fn parse_address(s: &str) -> (r: Option<Address>)
    ensures
        match r {
            Some(a) => {
                &&& address_well_formed(s@)
                &&& a.hi == hex_seq_val(strip_hex_prefix(s@).subrange(0, 16))
                &&& a.mid == hex_seq_val(strip_hex_prefix(s@).subrange(16, 32))
                &&& a.lo == hex_seq_val(strip_hex_prefix(s@).subrange(32, 40))
            },
            None => !address_well_formed(s@),
        },
{
    let n = s.unicode_len();
    let stripped: &str = if n >= 2 && s.get_char(0) == '0' && s.get_char(1) == 'x' {
        s.substring_char(2, n)
    } else {
        s
    };
    assert(stripped@ == strip_hex_prefix(s@));
    let m = stripped.unicode_len();
    if m != 40 {
        return None;
    }
    let mut i: usize = 0;
    while i < 40
        invariant
            0 <= i <= 40,
            stripped@ == strip_hex_prefix(s@),
            stripped@.len() == 40,
            forall|j: int| 0 <= j < i ==> is_hex_digit(#[trigger] stripped@[j]),
        decreases 40 - i,
    {
        let c = stripped.get_char(i);
        let u = c as u32;
        if !((48 <= u && u <= 57) || (97 <= u && u <= 102) || (65 <= u && u <= 70)) {
            assert(!is_hex_digit(stripped@[i as int]));
            return None;
        }
        i = i + 1;
    }
    let hi = parse_hex_word(stripped, 0, 16);
    let mid = parse_hex_word(stripped, 16, 16);
    let lo64 = parse_hex_word(stripped, 32, 8);
    proof {
        lemma_hex_seq_val_bound(stripped@.subrange(32, 40));
        reveal_with_fuel(pow16, 9);
    }
    let lo: u32 = lo64 as u32;
    Some(Address { hi, mid, lo })
}

/// A 160-bit account address: the high 64 bits, the middle 64 bits and the
/// low 32 bits, in big-endian order.
#[derive(PartialEq, Eq, Structural, Clone, Copy, Debug, Hash)]
pub struct Address {
    pub hi: u64,
    pub mid: u64,
    pub lo: u32,
}

impl Address {
    /// Builds an address from its three words.
    pub fn new(hi: u64, mid: u64, lo: u32) -> (r: Address)
        ensures
            r == (Address { hi, mid, lo }),
    {
        Address { hi, mid, lo }
    }
}

/// The well-known placeholder sender address, used when no explicit sender
/// was configured. Its presence among unresolved targets indicates likely
/// misconfiguration, and the failure diagnostic warns about it.
pub open spec fn default_sender() -> Address {
    Address { hi: 0x00a329c0648769a7, mid: 0x3afac7f9381e08fb, lo: 0x43dbea72 }
}

/// Returns the well-known placeholder sender address.
pub fn default_sender_address() -> (r: Address)
    ensures
        r == default_sender(),
{
    Address { hi: 0x00a329c0648769a7u64, mid: 0x3afac7f9381e08fbu64, lo: 0x43dbea72u32 }
}

} // verus!
