use vstd::prelude::*;

use crate::text::char_vec;

verus! {

/// The UTF-16 code units of one character: one unit below U+10000, otherwise
/// a high surrogate and a low surrogate.
pub open spec fn utf16_units(c: char) -> Seq<u16> {
    let u = c as u32;
    if u < 0x10000 {
        seq![u as u16]
    } else {
        let v = u - 0x10000;
        seq![(0xD800 + v / 0x400) as u16, (0xDC00 + v % 0x400) as u16]
    }
}

/// The UTF-16 encoding of a sequence of characters.
pub open spec fn encode_utf16(s: Seq<char>) -> Seq<u16>
    decreases s.len(),
{
    if s.len() == 0 {
        Seq::empty()
    } else {
        utf16_units(s[0]) + encode_utf16(s.drop_first())
    }
}

/// How UTF-16 is read: a high surrogate followed by a low surrogate stands for
/// one character beyond U+FFFF, any other unit for the character of that value.
pub open spec fn decode_utf16(units: Seq<u16>) -> Seq<char>
    decreases units.len(),
{
    if units.len() == 0 {
        Seq::empty()
    } else if units.len() >= 2 && 0xD800 <= units[0] < 0xDC00 && 0xDC00 <= units[1] < 0xE000 {
        seq![(0x10000 + (units[0] - 0xD800) * 0x400 + (units[1] - 0xDC00)) as char]
            + decode_utf16(units.skip(2))
    } else {
        seq![units[0] as char] + decode_utf16(units.drop_first())
    }
}

proof fn lemma_units_read_back(c: char, rest: Seq<u16>)
    ensures
        decode_utf16(utf16_units(c) + rest) == seq![c] + decode_utf16(rest),
        c != '\0' ==> forall|i: int| 0 <= i < utf16_units(c).len() ==> utf16_units(c)[i] != 0,
{
    let u = c as u32;
    vstd::utf8::char_is_scalar(c);
    vstd::utf8::char_u32_cast(c, u);
    let all = utf16_units(c) + rest;
    if u < 0x10000 {
        assert(u < 0xD800 || u >= 0xE000);
        assert((u as u16) as int == u as int);
        assert(all[0] == u as u16);
        assert(all.drop_first() =~= rest);
        assert((all[0] as char) == (u as char));
        assert(c == '\0' <==> u == 0);
    } else {
        let v = u - 0x10000;
        let hi = (0xD800 + v / 0x400) as u16;
        let lo = (0xDC00 + v % 0x400) as u16;
        assert(v / 0x400 < 0x400);
        assert(v % 0x400 < 0x400);
        assert(hi as int == 0xD800 + v / 0x400);
        assert(lo as int == 0xDC00 + v % 0x400);
        assert(all[0] == hi && all[1] == lo);
        assert(all.skip(2) =~= rest);
        assert(0x10000 + (hi - 0xD800) * 0x400 + (lo - 0xDC00) == u as int) by {
            assert(v == (v / 0x400) * 0x400 + v % 0x400);
        }
    }
}

/// Reading back the UTF-16 encoding of a string gives the string, and a string
/// without NUL characters has no zero unit in its encoding, so that a reader
/// that stops at the first zero sees all of it.
pub proof fn lemma_utf16_reads_back(s: Seq<char>)
    ensures
        decode_utf16(encode_utf16(s)) == s,
        (forall|i: int| 0 <= i < s.len() ==> s[i] != '\0') ==> forall|i: int|
            0 <= i < encode_utf16(s).len() ==> #[trigger] encode_utf16(s)[i] != 0,
    decreases s.len(),
{
    if s.len() == 0 {
        assert(decode_utf16(encode_utf16(s)) =~= s);
    } else {
        let rest = s.drop_first();
        lemma_utf16_reads_back(rest);
        lemma_units_read_back(s[0], encode_utf16(rest));
        assert(seq![s[0]] + rest =~= s);
        if forall|i: int| 0 <= i < s.len() ==> s[i] != '\0' {
            assert(s[0] != '\0');
            assert forall|i: int| 0 <= i < rest.len() implies rest[i] != '\0' by {
                assert(rest[i] == s[i + 1]);
            }
            let first = utf16_units(s[0]);
            assert forall|i: int| 0 <= i < encode_utf16(s).len() implies #[trigger] encode_utf16(
                s,
            )[i] != 0 by {
                if i < first.len() {
                    assert(encode_utf16(s)[i] == first[i]);
                } else {
                    assert(encode_utf16(s)[i] == encode_utf16(rest)[i - first.len()]);
                }
            }
        }
    }
}

/// The UTF-16 encoding of `value` followed by a terminating zero unit, the
/// form that wide-character system calls take.
pub fn to_wide_null(value: &str) -> (wide: Vec<u16>)
    ensures
        wide@ == encode_utf16(value@).push(0),
{
    let chars = char_vec(value);
    let ghost s = chars@;
    let mut wide: Vec<u16> = Vec::new();
    let mut i: usize = 0;
    assert(s.skip(0) =~= s);
    while i < chars.len()
        invariant
            s == chars@,
            i <= s.len(),
            encode_utf16(s) == wide@ + encode_utf16(s.skip(i as int)),
        decreases s.len() - i,
    {
        let c = chars[i];
        let ghost before = wide@;
        assert(s.skip(i as int).drop_first() =~= s.skip(i + 1));
        assert(s.skip(i as int)[0] == c);
        let u = c as u32;
        if u < 0x10000 {
            wide.push(u as u16);
        } else {
            let v = u - 0x10000;
            wide.push((0xD800 + v / 0x400) as u16);
            wide.push((0xDC00 + v % 0x400) as u16);
        }
        assert(wide@ =~= before + utf16_units(c));
        i += 1;
    }
    assert(s.skip(i as int) =~= Seq::<char>::empty());
    wide.push(0);
    assert(wide@ =~= encode_utf16(s).push(0));
    wide
}

} // verus!
