//! The attribute-key codec.
//!
//! A tag's presence on a file is stored as one extended attribute whose key
//! is `user.wutag.` followed by the tag's name, each character written as
//! six lowercase hex digits of its code point. The mapping is deterministic
//! and injective, works for any name including non-ASCII ones, and decoding
//! inverts it exactly. A key under the namespace that does not parse this
//! way is "not one of ours" and is skipped by callers, never a hard error.

use vstd::prelude::*;
use vstd::utf8::is_scalar;
use vstd::utf8::char_is_scalar;
use vstd::utf8::char_u32_cast;

verus! {

/// The prefix of every marker key: the namespace and its trailing dot.
pub open spec fn spec_key_prefix() -> Seq<char> {
    "user.wutag."@
}

/// The marker prefix is exactly the reserved namespace followed by a
/// dot.
pub proof fn lemma_key_prefix_namespace()
    ensures
        spec_key_prefix() == crate::spec_namespace() + seq!['.'],
{
    reveal_strlit("user.wutag.");
    reveal_strlit("user.wutag");
    assert(spec_key_prefix() =~= crate::spec_namespace() + seq!['.']);
}

/// The lowercase hex digit for a value below sixteen.
pub open spec fn spec_hex_digit(v: u32) -> char
    recommends
        v < 16,
{
    if v < 10 {
        (48 + v) as char
    } else {
        (87 + v) as char
    }
}

/// The value of a lowercase hex digit; `None` for any other character.
pub open spec fn spec_hex_digit_val(c: char) -> Option<u32> {
    let u = c as u32;
    if 48 <= u <= 57 {
        Some((u - 48) as u32)
    } else if 97 <= u <= 102 {
        Some((u - 87) as u32)
    } else {
        None
    }
}

/// One character of a tag name as six lowercase hex digits, most
/// significant nibble first.
pub open spec fn spec_enc_char(c: char) -> Seq<char> {
    let u = c as u32;
    seq![
        spec_hex_digit((u >> 20) & 0xf),
        spec_hex_digit((u >> 16) & 0xf),
        spec_hex_digit((u >> 12) & 0xf),
        spec_hex_digit((u >> 8) & 0xf),
        spec_hex_digit((u >> 4) & 0xf),
        spec_hex_digit(u & 0xf),
    ]
}

/// A whole tag name, character by character.
pub open spec fn spec_enc_name(s: Seq<char>) -> Seq<char>
    decreases s.len(),
{
    if s.len() == 0 {
        Seq::empty()
    } else {
        spec_enc_char(s[0]) + spec_enc_name(s.drop_first())
    }
}

/// The marker key of a tag name.
pub open spec fn spec_tag_key(name: Seq<char>) -> Seq<char> {
    spec_key_prefix() + spec_enc_name(name)
}

/// The character described by a group of six digits, if all six are
/// lowercase hex and the value is a Unicode scalar.
pub open spec fn spec_dec_group(g: Seq<char>) -> Option<char>
    recommends
        g.len() == 6,
{
    if spec_hex_digit_val(g[0]) is Some && spec_hex_digit_val(g[1]) is Some
        && spec_hex_digit_val(g[2]) is Some && spec_hex_digit_val(g[3]) is Some
        && spec_hex_digit_val(g[4]) is Some && spec_hex_digit_val(g[5]) is Some {
        let v = (spec_hex_digit_val(g[0])->0 << 20) | (spec_hex_digit_val(g[1])->0 << 16) | (
        spec_hex_digit_val(g[2])->0 << 12) | (spec_hex_digit_val(g[3])->0 << 8) | (
        spec_hex_digit_val(g[4])->0 << 4) | spec_hex_digit_val(g[5])->0;
        if is_scalar(v) {
            Some(v as char)
        } else {
            None
        }
    } else {
        None
    }
}

/// A name from its digit groups; `None` when the length is not a multiple
/// of six or any group fails.
pub open spec fn spec_dec_name(s: Seq<char>) -> Option<Seq<char>>
    decreases s.len(),
{
    if s.len() == 0 {
        Some(Seq::empty())
    } else if s.len() < 6 {
        None
    } else {
        match spec_dec_group(s.take(6)) {
            Some(c) => match spec_dec_name(s.skip(6)) {
                Some(rest) => Some(seq![c] + rest),
                None => None,
            },
            None => None,
        }
    }
}

/// The tag name of a marker key: the namespace prefix must be present and
/// the remainder must decode group by group.
pub open spec fn spec_decode_key(key: Seq<char>) -> Option<Seq<char>> {
    if key.len() >= 11 && key.take(11) == spec_key_prefix() {
        spec_dec_name(key.skip(11))
    } else {
        None
    }
}

/// Decoding a group inverts encoding a character.
proof fn lemma_group_round_trip(c: char)
    ensures
        spec_dec_group(spec_enc_char(c)) == Some(c),
{
    char_is_scalar(c);
    let u = c as u32;
    assert forall|d: u32| d < 16 implies #[trigger] spec_hex_digit_val(spec_hex_digit(d))
        == Some(d) by {
        if d < 10 {
            char_u32_cast_valid((48 + d) as u32);
        } else {
            char_u32_cast_valid((87 + d) as u32);
        }
    }
    assert((u >> 20) & 0xf < 16 && (u >> 16) & 0xf < 16 && (u >> 12) & 0xf < 16 && (u >> 8) & 0xf
        < 16 && (u >> 4) & 0xf < 16 && u & 0xf < 16) by (bit_vector);
    assert(u < 0x110000) by {
        assert(is_scalar(u));
    }
    assert(u < 0x110000 ==> (((u >> 20) & 0xf) << 20) | (((u >> 16) & 0xf) << 16) | (((u >> 12)
        & 0xf) << 12) | (((u >> 8) & 0xf) << 8) | (((u >> 4) & 0xf) << 4) | (u & 0xf) == u)
        by (bit_vector);
    char_u32_cast(c, u);
}

/// For a code point below 128 the char cast inverts exactly; used for the
/// digit characters themselves.
proof fn char_u32_cast_valid(u: u32)
    requires
        u < 0xD800,
    ensures
        (u as char) as u32 == u,
{
}

/// Decoding inverts encoding for every name, the codec round trip.
pub proof fn lemma_name_round_trip(name: Seq<char>)
    ensures
        spec_dec_name(spec_enc_name(name)) == Some(name),
    decreases name.len(),
{
    if name.len() == 0 {
    } else {
        let e = spec_enc_name(name);
        assert(e == spec_enc_char(name[0]) + spec_enc_name(name.drop_first()));
        assert(e.take(6) =~= spec_enc_char(name[0]));
        assert(e.skip(6) =~= spec_enc_name(name.drop_first()));
        lemma_group_round_trip(name[0]);
        lemma_name_round_trip(name.drop_first());
        assert(seq![name[0]] + name.drop_first() =~= name);
    }
}

/// The whole key round trip: a key written for a name always reads back as
/// exactly that name.
pub proof fn lemma_key_round_trip(name: Seq<char>)
    ensures
        spec_decode_key(spec_tag_key(name)) == Some(name),
{
    let key = spec_tag_key(name);
    reveal_strlit("user.wutag.");
    assert(key.take(11) =~= spec_key_prefix());
    assert(key.skip(11) =~= spec_enc_name(name));
    lemma_name_round_trip(name);
}

/// Relies on std's `char::from_u32`: `Some` exactly for Unicode scalar
/// values, and then the char with that code point.
pub assume_specification[ char::from_u32 ](v: u32) -> (r: Option<char>)
    ensures
        r is Some <==> is_scalar(v),
        r matches Some(c) ==> c as u32 == v,
;

fn hex_digit(v: u32) -> (c: char)
    requires
        v < 16,
    ensures
        c == spec_hex_digit(v),
{
    let w: u32 = if v < 10 {
        48 + v
    } else {
        87 + v
    };
    proof {
        char_u32_cast_valid(w);
    }
    let r = char::from_u32(w);
    match r {
        Some(c) => {
            proof {
                char_u32_cast(c, w);
            }
            c
        },
        None => {
            proof {
                assert(false);
            }
            '0'
        },
    }
}

fn hex_digit_val(c: char) -> (r: Option<u32>)
    ensures
        r == spec_hex_digit_val(c),
{
    let u = c as u32;
    if 48 <= u && u <= 57 {
        Some(u - 48)
    } else if 97 <= u && u <= 102 {
        Some(u - 87)
    } else {
        None
    }
}

/// The marker key that stores the given tag name.
pub fn encode_tag_name(name: &str) -> (key: String)
    ensures
        key@ == spec_tag_key(name@),
{
    let mut key = "user.wutag.".to_owned();
    let n = name.unicode_len();
    let mut i: usize = 0;
    proof {
        assert(spec_enc_name(name@.take(0)) =~= Seq::<char>::empty());
        assert(key@ == spec_key_prefix() + spec_enc_name(name@.take(0)));
    }
    while i < n
        invariant
            n == name@.len(),
            i <= n,
            key@ == spec_key_prefix() + spec_enc_name(name@.take(i as int)),
        decreases n - i,
    {
        let c = name.get_char(i);
        let u = c as u32;
        proof {
            char_is_scalar(c);
            assert((u >> 20) & 0xf < 16 && (u >> 16) & 0xf < 16 && (u >> 12) & 0xf < 16 && (u >> 8)
                & 0xf < 16 && (u >> 4) & 0xf < 16 && u & 0xf < 16) by (bit_vector);
        }
        let mut group = String::new();
        group.push(hex_digit((u >> 20) & 0xf));
        group.push(hex_digit((u >> 16) & 0xf));
        group.push(hex_digit((u >> 12) & 0xf));
        group.push(hex_digit((u >> 8) & 0xf));
        group.push(hex_digit((u >> 4) & 0xf));
        group.push(hex_digit(u & 0xf));
        proof {
            assert(group@ =~= spec_enc_char(c));
        }
        key.append(group.as_str());
        proof {
            lemma_enc_name_snoc(name@, i as int);
            assert(key@ =~= spec_key_prefix() + spec_enc_name(name@.take(i as int + 1)));
        }
        i = i + 1;
    }
    proof {
        assert(name@.take(n as int) =~= name@);
    }
    key
}

/// Encoding a prefix one character longer appends that character's group.
proof fn lemma_enc_name_snoc(s: Seq<char>, i: int)
    requires
        0 <= i < s.len(),
    ensures
        spec_enc_name(s.take(i + 1)) == spec_enc_name(s.take(i)) + spec_enc_char(s[i]),
    decreases i,
{
    if i == 0 {
        assert(s.take(1) =~= seq![s[0]]);
        assert(spec_enc_name(seq![s[0]]) == spec_enc_char(s[0]) + spec_enc_name(
            seq![s[0]].drop_first(),
        ));
        assert(seq![s[0]].drop_first() =~= Seq::<char>::empty());
        assert(spec_enc_name(s.take(0)) =~= Seq::<char>::empty());
    } else {
        let t = s.drop_first();
        assert(s.take(i + 1).drop_first() =~= t.take(i));
        assert(s.take(i).drop_first() =~= t.take(i - 1));
        assert(s.take(i + 1)[0] == s[0]);
        assert(s.take(i)[0] == s[0]);
        lemma_enc_name_snoc(t, i - 1);
        assert(t[i - 1] == s[i]);
        assert(spec_enc_name(s.take(i + 1)) == spec_enc_char(s[0]) + spec_enc_name(t.take(i)));
        assert(spec_enc_name(s.take(i)) == spec_enc_char(s[0]) + spec_enc_name(t.take(i - 1)));
        assert(spec_enc_char(s[0]) + (spec_enc_name(t.take(i - 1)) + spec_enc_char(s[i]))
            =~= (spec_enc_char(s[0]) + spec_enc_name(t.take(i - 1))) + spec_enc_char(s[i]));
    }
}

/// The tag name stored in a marker key, or `None` when the key is not one
/// of ours.
pub fn decode_tag_name(key: &str) -> (r: Option<String>)
    ensures
        match r {
            Some(name) => spec_decode_key(key@) == Some(name@),
            None => spec_decode_key(key@) is None,
        },
{
    let n = key.unicode_len();
    if n < 11 {
        return None;
    }
    // the namespace prefix, character by character
    let mut j: usize = 0;
    let prefix = "user.wutag.";
    proof {
        reveal_strlit("user.wutag.");
    }
    while j < 11
        invariant
            n == key@.len(),
            n >= 11,
            j <= 11,
            prefix@ == spec_key_prefix(),
            prefix@.len() == 11,
            forall|k: int| 0 <= k < j ==> key@[k] == spec_key_prefix()[k],
        decreases 11 - j,
    {
        if key.get_char(j) != prefix.get_char(j) {
            proof {
                assert(key@.take(11)[j as int] != spec_key_prefix()[j as int]);
            }
            return None;
        }
        j = j + 1;
    }
    proof {
        assert(key@.take(11) =~= spec_key_prefix());
    }
    let mut name = String::new();
    let mut i: usize = 11;
    proof {
        assert forall|rest: Seq<char>|
            spec_dec_name(key@.skip(11)) == Some::<Seq<char>>(rest) implies spec_dec_name(
            key@.skip(11),
        ) == Some::<Seq<char>>(Seq::<char>::empty() + rest) by {
            assert(Seq::<char>::empty() + rest =~= rest);
        }
    }
    while i < n
        invariant
            n == key@.len(),
            11 <= i <= n,
            key@.take(11) == spec_key_prefix(),
            forall|rest: Seq<char>|
                spec_dec_name(key@.skip(i as int)) == Some::<Seq<char>>(rest) ==> spec_dec_name(
                    key@.skip(11),
                ) == Some::<Seq<char>>(name@ + rest),
            spec_dec_name(key@.skip(11)) is Some ==> spec_dec_name(key@.skip(i as int)) is Some,
        decreases n - i,
    {
        if n - i < 6 {
            proof {
                lemma_dec_name_short(key@, i as int);
            }
            return None;
        }
        let d0 = hex_digit_val(key.get_char(i));
        let d1 = hex_digit_val(key.get_char(i + 1));
        let d2 = hex_digit_val(key.get_char(i + 2));
        let d3 = hex_digit_val(key.get_char(i + 3));
        let d4 = hex_digit_val(key.get_char(i + 4));
        let d5 = hex_digit_val(key.get_char(i + 5));
        proof {
            assert(key@.skip(i as int).take(6) =~= key@.subrange(i as int, i + 6));
            assert(key@.subrange(i as int, i + 6)[0] == key@[i as int]);
            assert(key@.subrange(i as int, i + 6)[1] == key@[i as int + 1]);
            assert(key@.subrange(i as int, i + 6)[2] == key@[i as int + 2]);
            assert(key@.subrange(i as int, i + 6)[3] == key@[i as int + 3]);
            assert(key@.subrange(i as int, i + 6)[4] == key@[i as int + 4]);
            assert(key@.subrange(i as int, i + 6)[5] == key@[i as int + 5]);
        }
        match (d0, d1, d2, d3, d4, d5) {
            (Some(v0), Some(v1), Some(v2), Some(v3), Some(v4), Some(v5)) => {
                proof {
                    assert(v0 < 16 && v1 < 16 && v2 < 16 && v3 < 16 && v4 < 16 && v5 < 16);
                    assert(v0 < 16 && v1 < 16 && v2 < 16 && v3 < 16 && v4 < 16 && v5 < 16 ==> (v0
                        << 20) | (v1 << 16) | (v2 << 12) | (v3 << 8) | (v4 << 4) | v5 < 0x1000000)
                        by (bit_vector);
                }
                let v = (v0 << 20) | (v1 << 16) | (v2 << 12) | (v3 << 8) | (v4 << 4) | v5;
                match char::from_u32(v) {
                    Some(c) => {
                        proof {
                            char_u32_cast(c, v);
                            assert(spec_dec_group(key@.skip(i as int).take(6)) == Some(c));
                            lemma_dec_name_step(key@, i as int, c);
                            let pre = name@;
                            assert forall|rest: Seq<char>|
                                spec_dec_name(key@.skip(i + 6)) == Some::<Seq<char>>(
                                    rest,
                                ) implies spec_dec_name(key@.skip(11)) == Some::<Seq<char>>(
                                pre.push(c) + rest,
                            ) by {
                                assert(spec_dec_name(key@.skip(i as int)) == Some(seq![c] + rest));
                                assert(pre + (seq![c] + rest) =~= pre.push(c) + rest);
                            }
                        }
                        name.push(c);
                        i = i + 6;
                    },
                    None => {
                        proof {
                            assert(spec_dec_group(key@.skip(i as int).take(6)) is None);
                            lemma_dec_name_fail(key@, i as int);
                        }
                        return None;
                    },
                }
            },
            _ => {
                proof {
                    assert(spec_dec_group(key@.skip(i as int).take(6)) is None);
                    lemma_dec_name_fail(key@, i as int);
                }
                return None;
            },
        }
    }
    proof {
        assert(key@.skip(n as int) =~= Seq::<char>::empty());
        assert(spec_dec_name(key@.skip(n as int)) == Some(Seq::<char>::empty()));
        assert(spec_dec_name(key@.skip(11)) == Some::<Seq<char>>(name@ + Seq::<char>::empty()));
        assert(name@ + Seq::<char>::empty() =~= name@);
    }
    Some(name)
}

/// Fewer than six characters remain and some do: the whole decode fails.
proof fn lemma_dec_name_short(key: Seq<char>, i: int)
    requires
        0 <= i <= key.len(),
        0 < key.len() - i < 6,
    ensures
        spec_dec_name(key.skip(i)) is None,
{
}

/// A failing group makes the whole decode fail.
proof fn lemma_dec_name_fail(key: Seq<char>, i: int)
    requires
        0 <= i,
        i + 6 <= key.len(),
        spec_dec_group(key.skip(i).take(6)) is None,
    ensures
        spec_dec_name(key.skip(i)) is None,
{
}

/// A successful group prepends its character to the rest of the decode.
proof fn lemma_dec_name_step(key: Seq<char>, i: int, c: char)
    requires
        0 <= i,
        i + 6 <= key.len(),
        spec_dec_group(key.skip(i).take(6)) == Some(c),
    ensures
        spec_dec_name(key.skip(i)) matches Some(full) ==> spec_dec_name(key.skip(i + 6))
            matches Some(rest) && full == seq![c] + rest,
        spec_dec_name(key.skip(i + 6)) matches Some(rest) ==> spec_dec_name(key.skip(i))
            == Some(seq![c] + rest),
{
    assert(key.skip(i).skip(6) =~= key.skip(i + 6));
    assert(key.skip(i).len() == key.len() - i >= 6);
}

} // verus!
