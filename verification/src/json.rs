//! Emitter for the JSON bodies that the guest sends to the host.
//!
//! Bodies are built directly as UTF-8 bytes. Strings are escaped the way the
//! host expects: quote and backslash get a backslash escape, the control
//! characters with short forms get those, and every other control character
//! becomes a lowercase `\u00..` escape. Integers are written in decimal.

use vstd::prelude::*;
use vstd::string::StringSliceAdditionalSpecFns;
use vstd::utf8::encode_utf8;

verus! {

/// The UTF-8 bytes of a string literal, for use in body specifications.
pub open spec fn lit(s: &str) -> Seq<u8> {
    encode_utf8(s@)
}

/// The ASCII code of `n` as one lowercase hexadecimal digit.
pub open spec fn hex_digit(n: u8) -> u8
    recommends
        n < 16,
{
    if n < 10 {
        (0x30 + n) as u8
    } else {
        (0x57 + n) as u8
    }
}

/// The escape of one byte inside a JSON string.
pub open spec fn json_escape_byte(b: u8) -> Seq<u8> {
    if b == 0x22 {
        seq![0x5cu8, 0x22u8]
    } else if b == 0x5c {
        seq![0x5cu8, 0x5cu8]
    } else if b == 0x08 {
        seq![0x5cu8, 0x62u8]
    } else if b == 0x09 {
        seq![0x5cu8, 0x74u8]
    } else if b == 0x0a {
        seq![0x5cu8, 0x6eu8]
    } else if b == 0x0c {
        seq![0x5cu8, 0x66u8]
    } else if b == 0x0d {
        seq![0x5cu8, 0x72u8]
    } else if b < 0x20 {
        seq![0x5cu8, 0x75u8, 0x30u8, 0x30u8, hex_digit(b >> 4), hex_digit(b & 0xf)]
    } else {
        seq![b]
    }
}

/// The escape of a run of UTF-8 bytes inside a JSON string.
pub open spec fn json_escaped(s: Seq<u8>) -> Seq<u8>
    decreases s.len(),
{
    if s.len() == 0 {
        Seq::empty()
    } else {
        json_escape_byte(s[0]) + json_escaped(s.drop_first())
    }
}

/// A quoted JSON string holding the characters `s`.
pub open spec fn json_string(s: Seq<char>) -> Seq<u8> {
    seq![0x22u8] + json_escaped(encode_utf8(s)) + seq![0x22u8]
}

/// The decimal digits of `n`, most significant first.
pub open spec fn dec_digits(n: nat) -> Seq<u8>
    decreases n,
{
    if n < 10 {
        seq![(0x30 + n) as u8]
    } else {
        dec_digits(n / 10) + seq![(0x30 + n % 10) as u8]
    }
}

/// Escaping one more byte extends the escaped run by that byte's escape.
proof fn lemma_json_escaped_snoc(s: Seq<u8>, i: int)
    requires
        0 <= i < s.len(),
    ensures
        json_escaped(s.take(i + 1)) == json_escaped(s.take(i)) + json_escape_byte(s[i]),
    decreases i,
{
    if i == 0 {
        assert(s.take(1) =~= seq![s[0]]);
        assert(s.take(1)[0] == s[0]);
        assert(s.take(1).drop_first() =~= Seq::<u8>::empty());
        assert(json_escaped(Seq::<u8>::empty()) == Seq::<u8>::empty());
        assert(json_escaped(s.take(0)) =~= Seq::<u8>::empty());
        assert(json_escape_byte(s[0]) + Seq::<u8>::empty() =~= json_escape_byte(s[0]));
        assert(json_escaped(s.take(1)) == json_escape_byte(s.take(1)[0]) + json_escaped(
            s.take(1).drop_first(),
        ));
    } else {
        lemma_json_escaped_snoc(s.drop_first(), i - 1);
        assert(s.take(i + 1).drop_first() =~= s.drop_first().take(i));
        assert(s.take(i).drop_first() =~= s.drop_first().take(i - 1));
        assert(s.take(i + 1)[0] == s[0]);
        assert(s.take(i)[0] == s[0]);
        assert(s.drop_first()[i - 1] == s[i]);
        assert(json_escape_byte(s[0]) + (json_escaped(s.drop_first().take(i - 1))
            + json_escape_byte(s[i])) =~= (json_escape_byte(s[0]) + json_escaped(
            s.drop_first().take(i - 1),
        )) + json_escape_byte(s[i]));
    }
}

/// Appends the escape of one byte to `out`.
fn push_escape_byte(out: &mut Vec<u8>, b: u8)
    ensures
        final(out)@ == old(out)@ + json_escape_byte(b),
{
    if b == 0x22 {
        out.push(0x5c);
        out.push(0x22);
    } else if b == 0x5c {
        out.push(0x5c);
        out.push(0x5c);
    } else if b == 0x08 {
        out.push(0x5c);
        out.push(0x62);
    } else if b == 0x09 {
        out.push(0x5c);
        out.push(0x74);
    } else if b == 0x0a {
        out.push(0x5c);
        out.push(0x6e);
    } else if b == 0x0c {
        out.push(0x5c);
        out.push(0x66);
    } else if b == 0x0d {
        out.push(0x5c);
        out.push(0x72);
    } else if b < 0x20 {
        out.push(0x5c);
        out.push(0x75);
        out.push(0x30);
        out.push(0x30);
        let hi = b >> 4;
        let lo = b & 0xf;
        proof {
            assert(b >> 4 < 16 && b & 0xf < 16) by (bit_vector);
        }
        out.push(if hi < 10 { 0x30 + hi } else { 0x57 + hi });
        out.push(if lo < 10 { 0x30 + lo } else { 0x57 + lo });
    } else {
        out.push(b);
    }
    assert(out@ =~= old(out)@ + json_escape_byte(b));
}

/// Appends the quoted, escaped JSON form of `s` to `out`.
pub fn push_json_string(out: &mut Vec<u8>, s: &str)
    ensures
        final(out)@ == old(out)@ + json_string(s@),
{
    out.push(0x22);
    let bytes = s.as_bytes();
    let ghost mid = out@;
    let mut i: usize = 0;
    while i < bytes.len()
        invariant
            i <= bytes@.len(),
            out@ == mid + json_escaped(bytes@.take(i as int)),
        decreases bytes@.len() - i,
    {
        proof {
            lemma_json_escaped_snoc(bytes@, i as int);
        }
        push_escape_byte(out, bytes[i]);
        i = i + 1;
    }
    assert(bytes@.take(bytes@.len() as int) =~= bytes@);
    out.push(0x22);
    assert(out@ =~= old(out)@ + json_string(s@));
}

/// Appends the decimal digits of `n` to `out`.
pub fn push_u64_dec(out: &mut Vec<u8>, n: u64)
    ensures
        final(out)@ == old(out)@ + dec_digits(n as nat),
    decreases n,
{
    if n < 10 {
        out.push(0x30 + n as u8);
        assert(out@ =~= old(out)@ + dec_digits(n as nat));
    } else {
        push_u64_dec(out, n / 10);
        out.push(0x30 + (n % 10) as u8);
        assert(out@ =~= old(out)@ + dec_digits(n as nat));
    }
}

/// Appends the decimal digits of `n` to `out`.
pub fn push_u32_dec(out: &mut Vec<u8>, n: u32)
    ensures
        final(out)@ == old(out)@ + dec_digits(n as nat),
{
    push_u64_dec(out, n as u64);
}

/// Appends the UTF-8 bytes of `s` to `out`.
pub fn push_lit(out: &mut Vec<u8>, s: &str)
    ensures
        final(out)@ == old(out)@ + lit(s),
{
    out.extend_from_slice(s.as_bytes());
}

/// The items of a JSON array of strings, separated by commas.
pub open spec fn json_string_items(names: Seq<Seq<char>>) -> Seq<u8>
    decreases names.len(),
{
    if names.len() == 0 {
        Seq::empty()
    } else if names.len() == 1 {
        json_string(names[0])
    } else {
        json_string(names[0]) + seq![0x2cu8] + json_string_items(names.drop_first())
    }
}

/// A JSON array holding the strings `names`.
pub open spec fn json_string_array(names: Seq<Seq<char>>) -> Seq<u8> {
    seq![0x5bu8] + json_string_items(names) + seq![0x5du8]
}

/// One more item extends the array items by a comma and the item, or is the
/// first item.
proof fn lemma_json_string_items_snoc(names: Seq<Seq<char>>, i: int)
    requires
        0 <= i < names.len(),
    ensures
        json_string_items(names.take(i + 1)) == if i == 0 {
            json_string(names[0])
        } else {
            json_string_items(names.take(i)) + seq![0x2cu8] + json_string(names[i])
        },
    decreases i,
{
    if i == 0 {
        assert(names.take(1) =~= seq![names[0]]);
        assert(names.take(1)[0] == names[0]);
    } else if i == 1 {
        assert(names.take(2)[0] == names[0]);
        assert(names.take(2).drop_first() =~= seq![names[1]]);
        assert(names.take(2).drop_first()[0] == names[1]);
        assert(names.take(1) =~= seq![names[0]]);
        assert(names.take(1)[0] == names[0]);
        assert(json_string_items(names.take(2).drop_first()) == json_string(names[1]));
        assert(json_string_items(names.take(2)) == json_string(names[0]) + seq![0x2cu8]
            + json_string(names[1]));
    } else {
        lemma_json_string_items_snoc(names.drop_first(), i - 1);
        assert(names.take(i + 1).drop_first() =~= names.drop_first().take(i));
        assert(names.take(i).drop_first() =~= names.drop_first().take(i - 1));
        assert(names.take(i + 1)[0] == names[0]);
        assert(names.take(i)[0] == names[0]);
        assert(names.drop_first()[i - 1] == names[i]);
        assert(names.take(i + 1).len() == i + 1);
        assert(json_string_items(names.take(i + 1)) == json_string(names[0]) + seq![0x2cu8]
            + json_string_items(names.drop_first().take(i)));
        assert(json_string(names[0]) + seq![0x2cu8] + (json_string_items(
            names.drop_first().take(i - 1),
        ) + seq![0x2cu8] + json_string(names[i])) =~= (json_string(names[0]) + seq![0x2cu8]
            + json_string_items(names.drop_first().take(i - 1))) + seq![0x2cu8] + json_string(
            names[i],
        ));
    }
}

/// Appends a JSON array holding the strings `names` to `out`.
pub fn push_json_string_array(out: &mut Vec<u8>, names: &Vec<String>)
    ensures
        final(out)@ == old(out)@ + json_string_array(names.deep_view()),
{
    out.push(0x5b);
    let ghost mid = out@;
    let mut i: usize = 0;
    while i < names.len()
        invariant
            i <= names@.len(),
            names.deep_view().len() == names@.len(),
            out@ == mid + json_string_items(names.deep_view().take(i as int)),
        decreases names@.len() - i,
    {
        if i > 0 {
            out.push(0x2c);
        }
        push_json_string(out, names[i].as_str());
        proof {
            assert(names.deep_view()[i as int] == names@[i as int]@);
            lemma_json_string_items_snoc(names.deep_view(), i as int);
            if i == 0 {
                assert(out@ =~= mid + json_string_items(names.deep_view().take(1)));
            } else {
                assert(out@ =~= mid + json_string_items(names.deep_view().take(i + 1)));
            }
        }
        i = i + 1;
    }
    assert(names.deep_view().take(names@.len() as int) =~= names.deep_view());
    out.push(0x5d);
    assert(out@ =~= old(out)@ + json_string_array(names.deep_view()));
}

/// The items of a JSON array of integers, separated by commas.
pub open spec fn json_u64_items(ns: Seq<u64>) -> Seq<u8>
    decreases ns.len(),
{
    if ns.len() == 0 {
        Seq::empty()
    } else if ns.len() == 1 {
        dec_digits(ns[0] as nat)
    } else {
        dec_digits(ns[0] as nat) + seq![0x2cu8] + json_u64_items(ns.drop_first())
    }
}

/// A JSON array holding the integers `ns`.
pub open spec fn json_u64_array(ns: Seq<u64>) -> Seq<u8> {
    seq![0x5bu8] + json_u64_items(ns) + seq![0x5du8]
}

/// One more item extends the array items by a comma and the item, or is the
/// first item.
proof fn lemma_json_u64_items_snoc(ns: Seq<u64>, i: int)
    requires
        0 <= i < ns.len(),
    ensures
        json_u64_items(ns.take(i + 1)) == if i == 0 {
            dec_digits(ns[0] as nat)
        } else {
            json_u64_items(ns.take(i)) + seq![0x2cu8] + dec_digits(ns[i] as nat)
        },
    decreases i,
{
    if i == 0 {
        assert(ns.take(1) =~= seq![ns[0]]);
        assert(ns.take(1)[0] == ns[0]);
    } else if i == 1 {
        assert(ns.take(2)[0] == ns[0]);
        assert(ns.take(2).drop_first() =~= seq![ns[1]]);
        assert(ns.take(2).drop_first()[0] == ns[1]);
        assert(ns.take(1) =~= seq![ns[0]]);
        assert(ns.take(1)[0] == ns[0]);
        assert(json_u64_items(ns.take(2).drop_first()) == dec_digits(ns[1] as nat));
        assert(json_u64_items(ns.take(2)) == dec_digits(ns[0] as nat) + seq![0x2cu8] + dec_digits(
            ns[1] as nat,
        ));
    } else {
        lemma_json_u64_items_snoc(ns.drop_first(), i - 1);
        assert(ns.take(i + 1).drop_first() =~= ns.drop_first().take(i));
        assert(ns.take(i).drop_first() =~= ns.drop_first().take(i - 1));
        assert(ns.take(i + 1)[0] == ns[0]);
        assert(ns.take(i)[0] == ns[0]);
        assert(ns.drop_first()[i - 1] == ns[i]);
        assert(dec_digits(ns[0] as nat) + seq![0x2cu8] + (json_u64_items(
            ns.drop_first().take(i - 1),
        ) + seq![0x2cu8] + dec_digits(ns[i] as nat)) =~= (dec_digits(ns[0] as nat) + seq![0x2cu8]
            + json_u64_items(ns.drop_first().take(i - 1))) + seq![0x2cu8] + dec_digits(
            ns[i] as nat,
        ));
    }
}

/// Appends a JSON array holding the integers `ns` to `out`.
pub fn push_json_u64_array(out: &mut Vec<u8>, ns: &Vec<u64>)
    ensures
        final(out)@ == old(out)@ + json_u64_array(ns@),
{
    out.push(0x5b);
    let ghost mid = out@;
    let mut i: usize = 0;
    while i < ns.len()
        invariant
            i <= ns@.len(),
            out@ == mid + json_u64_items(ns@.take(i as int)),
        decreases ns@.len() - i,
    {
        if i > 0 {
            out.push(0x2c);
        }
        push_u64_dec(out, ns[i]);
        proof {
            lemma_json_u64_items_snoc(ns@, i as int);
            if i == 0 {
                assert(out@ =~= mid + json_u64_items(ns@.take(1)));
            } else {
                assert(out@ =~= mid + json_u64_items(ns@.take(i + 1)));
            }
        }
        i = i + 1;
    }
    assert(ns@.take(ns@.len() as int) =~= ns@);
    out.push(0x5d);
    assert(out@ =~= old(out)@ + json_u64_array(ns@));
}

} // verus!
