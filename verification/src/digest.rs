//! Receipt digests and their text.

use vstd::prelude::*;
use vstd::string::*;
use vstd::utf8::{encode_utf8, is_ascii_chars, is_ascii_chars_encode_utf8};
use crate::receipt::{SchemaError, SchemaFault};
use crate::text::{
    concat2, concat3, decimal, decimal_text, lemma_utf8_injective, strip_prefix,
};

verus! {

broadcast use vstd::string::group_string_axioms;

/// A digest of 32 bytes.
pub type ReceiptDigest = [u8; 32];

/// The lower-case hexadecimal digit for `n`.
pub open spec fn hex_char(n: int) -> char {
    if n < 10 {
        (48 + n) as char
    } else {
        (87 + n) as char
    }
}

/// `bytes` in lower-case hexadecimal, two digits for each byte.
pub open spec fn hex(bytes: Seq<u8>) -> Seq<char> {
    Seq::new(
        2 * bytes.len(),
        |i: int|
            if i % 2 == 0 {
                hex_char(bytes[i / 2] as int / 16)
            } else {
                hex_char(bytes[i / 2] as int % 16)
            },
    )
}

/// The text of a digest.
pub open spec fn digest_text(d: Seq<u8>) -> Seq<char> {
    "blake3:"@ + hex(d)
}

fn hex_digit(n: u8) -> (c: char)
    requires
        n < 16,
    ensures
        c == hex_char(n as int),
{
    if n < 10 {
        (48u8 + n) as char
    } else {
        (87u8 + n) as char
    }
}

/// The text of the digest `d`.
pub fn hex_digest(d: &ReceiptDigest) -> (r: String)
    ensures
        r@ == digest_text(d@),
{
    let mut r: String = "blake3:".to_owned();
    let mut i: usize = 0;
    assert(d@.take(0).len() == 0);
    assert(r@ =~= "blake3:"@ + hex(d@.take(0)));
    while i < 32
        invariant
            i <= 32,
            d@.len() == 32,
            r@ == "blake3:"@ + hex(d@.take(i as int)),
        decreases 32 - i,
    {
        let ghost before = r@;
        r.push(hex_digit(d[i] / 16));
        r.push(hex_digit(d[i] % 16));
        i = i + 1;
        proof {
            assert(hex(d@.take(i as int)) =~= hex(d@.take(i - 1)).push(
                hex_char(d@[i - 1] as int / 16),
            ).push(hex_char(d@[i - 1] as int % 16)));
            assert(r@ =~= "blake3:"@ + hex(d@.take(i as int)));
        }
    }
    assert(d@.take(32) =~= d@);
    r
}

/// The value of the byte `b` as a hexadecimal digit of either case.
pub open spec fn hex_value(b: u8) -> Option<u8> {
    if 48 <= b <= 57 {
        Some((b - 48) as u8)
    } else if 97 <= b <= 102 {
        Some((b - 87) as u8)
    } else if 65 <= b <= 70 {
        Some((b - 55) as u8)
    } else {
        None
    }
}

/// The number that two bytes say as two hexadecimal digits.
pub open spec fn octet(a: u8, b: u8) -> Option<u8> {
    match (hex_value(a), hex_value(b)) {
        (Some(x), Some(y)) => Some((16 * x + y) as u8),
        _ => None,
    }
}

/// The numbers that `h` says two digits by two, if all of its bytes are
/// hexadecimal digits.
pub open spec fn octets(h: Seq<u8>) -> Option<Seq<u8>>
    decreases h.len(),
{
    if h.len() < 2 {
        Some(seq![])
    } else {
        match (octet(h[0], h[1]), octets(h.skip(2))) {
            (Some(b), Some(rest)) => Some(seq![b] + rest),
            _ => None,
        }
    }
}

/// The digest whose text is `s`, or what is wrong with `s`.
pub open spec fn digest_read(s: Seq<char>) -> Result<Seq<u8>, SchemaFault> {
    let rest = s.skip("blake3:"@.len() as int);
    if !"blake3:"@.is_prefix_of(s) {
        Err(SchemaFault::Validation("digest missing 'blake3:' prefix: "@ + s))
    } else if encode_utf8(rest).len() != 64 {
        Err(
            SchemaFault::Validation(
                "digest hex length "@ + decimal(encode_utf8(rest).len()) + " (want 64)"@,
            ),
        )
    } else {
        match octets(encode_utf8(rest)) {
            Some(d) => Ok(d),
            None => Err(
                SchemaFault::Validation("digest hex parse: invalid digit found in string"@),
            ),
        }
    }
}

fn value_of_digit(b: u8) -> (r: Option<u8>)
    ensures
        r == hex_value(b),
{
    if 48 <= b && b <= 57 {
        Some(b - 48)
    } else if 97 <= b && b <= 102 {
        Some(b - 87)
    } else if 65 <= b && b <= 70 {
        Some(b - 55)
    } else {
        None
    }
}

fn octet_of(a: u8, b: u8) -> (r: Option<u8>)
    ensures
        r == octet(a, b),
{
    match (value_of_digit(a), value_of_digit(b)) {
        (Some(x), Some(y)) => Some(16 * x + y),
        _ => None,
    }
}

fn read_pairs(h: &[u8]) -> (r: Option<ReceiptDigest>)
    requires
        h@.len() == 64,
    ensures
        match r {
            Some(d) => octets(h@) == Some(d@),
            None => octets(h@) is None,
        },
{
    let mut out: ReceiptDigest = [0u8; 32];
    let mut i: usize = 0;
    assert(h@.skip(0) =~= h@);
    assert(octets(h@) is Some ==> octets(h@)->Some_0 =~= out@.take(0) + octets(h@)->Some_0);
    while i < 32
        invariant
            i <= 32,
            h@.len() == 64,
            out@.len() == 32,
            match octets(h@.skip(2 * i)) {
                Some(rest) => octets(h@) == Some(out@.take(i as int) + rest),
                None => octets(h@) is None,
            },
        decreases 32 - i,
    {
        let ghost here = h@.skip(2 * i);
        assert(here.skip(2) =~= h@.skip(2 * (i + 1)));
        match octet_of(h[2 * i], h[2 * i + 1]) {
            None => {
                return None;
            },
            Some(b) => {
                let ghost before = out@.take(i as int);
                out[i] = b;
                assert(out@.take(i + 1) =~= before.push(b));
                assert(octets(here.skip(2)) is Some ==> before + (seq![b] + octets(
                    here.skip(2),
                )->Some_0) =~= before.push(b) + octets(here.skip(2))->Some_0);
            },
        }
        i = i + 1;
    }
    assert(out@.take(32) =~= out@);
    assert(octets(h@.skip(64)) == Some(Seq::<u8>::empty()));
    assert(out@ + Seq::<u8>::empty() =~= out@);
    Some(out)
}

/// The digest whose text is `s`, or what is wrong with `s`.
pub fn parse_hex_digest(s: &str) -> (r: Result<ReceiptDigest, SchemaError>)
    ensures
        match r {
            Ok(d) => digest_read(s@) == Ok::<Seq<u8>, SchemaFault>(d@),
            Err(e) => digest_read(s@) == Err::<Seq<u8>, SchemaFault>(e@),
        },
{
    match strip_prefix(s, "blake3:") {
        None => Err(SchemaError::Validation(concat2("digest missing 'blake3:' prefix: ", s))),
        Some(rest) => {
            assert(s@.skip("blake3:"@.len() as int) =~= rest@);
            assert("blake3:"@.is_prefix_of(s@));
            let h: &[u8] = rest.as_str().as_bytes();
            if h.len() != 64 {
                let n: String = decimal_text(h.len() as u64);
                return Err(
                    SchemaError::Validation(
                        concat3("digest hex length ", n.as_str(), " (want 64)"),
                    ),
                );
            }
            match read_pairs(h) {
                Some(d) => Ok(d),
                None => Err(
                    SchemaError::Validation(
                        "digest hex parse: invalid digit found in string".to_owned(),
                    ),
                ),
            }
        },
    }
}

proof fn lemma_octets_of_hex(d: Seq<u8>)
    ensures
        octets(Seq::new(hex(d).len(), |i: int| hex(d)[i] as u8)) == Some(d),
    decreases d.len(),
{
    let h = Seq::new(hex(d).len(), |i: int| hex(d)[i] as u8);
    if d.len() == 0 {
        assert(d =~= seq![]);
    } else {
        let rest = d.skip(1);
        let g = Seq::new(hex(rest).len(), |i: int| hex(rest)[i] as u8);
        assert(h.skip(2) =~= g);
        lemma_octets_of_hex(rest);
        assert(hex(d)[0] == hex_char(d[0] as int / 16));
        assert(hex(d)[1] == hex_char(d[0] as int % 16));
        assert(octet(h[0], h[1]) == Some(d[0]));
        assert(seq![d[0]] + rest =~= d);
    }
}

/// `h` with its hexadecimal digits in upper case.
pub open spec fn upper(h: Seq<char>) -> Seq<char> {
    Seq::new(
        h.len(),
        |i: int|
            if 'a' <= h[i] <= 'f' {
                (h[i] as int - 32) as char
            } else {
                h[i]
            },
    )
}

proof fn lemma_octets_by_value(h: Seq<u8>, g: Seq<u8>)
    requires
        h.len() == g.len(),
        forall|i: int| 0 <= i < h.len() ==> hex_value(#[trigger] h[i]) == hex_value(g[i]),
    ensures
        octets(h) == octets(g),
    decreases h.len(),
{
    if h.len() >= 2 {
        assert(hex_value(h[0]) == hex_value(g[0]));
        assert(hex_value(h[1]) == hex_value(g[1]));
        assert forall|i: int| 0 <= i < h.skip(2).len() implies hex_value(#[trigger] h.skip(2)[i])
            == hex_value(g.skip(2)[i]) by {
            assert(hex_value(h[i + 2]) == hex_value(g[i + 2]));
        }
        lemma_octets_by_value(h.skip(2), g.skip(2));
    }
}

/// The text of a digest with its digits in upper case reads as the same digest.
pub proof fn law_upper_case_reads_the_same(d: Seq<u8>)
    requires
        d.len() == 32,
    ensures
        digest_read("blake3:"@ + upper(hex(d))) == Ok::<Seq<u8>, SchemaFault>(d),
{
    let h = hex(d);
    let u = upper(h);
    let s = "blake3:"@ + u;
    assert(s.skip("blake3:"@.len() as int) =~= u);
    assert("blake3:"@.is_prefix_of(s));
    assert(is_ascii_chars(h));
    assert(is_ascii_chars(u));
    is_ascii_chars_encode_utf8(h);
    is_ascii_chars_encode_utf8(u);
    lemma_octets_of_hex(d);
    let low = Seq::new(h.len(), |i: int| h[i] as u8);
    let high = encode_utf8(u);
    assert(high.len() == 64);
    assert forall|i: int| 0 <= i < low.len() implies hex_value(#[trigger] low[i]) == hex_value(
        high[i],
    ) by {
        assert(high[i] == u[i] as u8);
    }
    lemma_octets_by_value(low, high);
}

/// Reading the text of a digest gives the digest back.
pub proof fn law_digest_reads_back(d: Seq<u8>)
    requires
        d.len() == 32,
    ensures
        digest_read(digest_text(d)) == Ok::<Seq<u8>, SchemaFault>(d),
{
    let s = digest_text(d);
    assert(s.skip("blake3:"@.len() as int) =~= hex(d));
    assert("blake3:"@.is_prefix_of(s));
    assert(is_ascii_chars(hex(d)));
    is_ascii_chars_encode_utf8(hex(d));
    lemma_octets_of_hex(d);
    assert(encode_utf8(hex(d)) =~= Seq::new(hex(d).len(), |i: int| hex(d)[i] as u8));
}

/// Whether `c` is the hexadecimal digit for `n`, in lower or upper case.
pub open spec fn spells_digit(c: char, n: int) -> bool {
    0 <= n < 16 && (c == "0123456789abcdef"@[n] || c == "0123456789ABCDEF"@[n])
}

proof fn lemma_spelt_digits(b: u8, n: int)
    requires
        0 <= n < 16,
    ensures
        hex_char(n) == "0123456789abcdef"@[n],
        spells_digit(b as char, n) <==> hex_value(b) == Some(n as u8),
{
    reveal_strlit("0123456789abcdef");
    reveal_strlit("0123456789ABCDEF");
}

/// The text of a digest is `blake3:` and two lower-case hexadecimal digits for each
/// of its bytes, the higher four bits first.
pub proof fn law_digest_text_spells_every_byte(d: Seq<u8>)
    ensures
        digest_text(d).len() == 7 + 2 * d.len(),
        digest_text(d).take(7) == "blake3:"@,
        forall|i: int|
            0 <= i < d.len() ==> {
                &&& digest_text(d)[7 + 2 * i] == "0123456789abcdef"@[#[trigger] d[i] as int / 16]
                &&& digest_text(d)[8 + 2 * i] == "0123456789abcdef"@[d[i] as int % 16]
            },
{
    reveal_strlit("blake3:");
    assert(digest_text(d).take(7) =~= "blake3:"@);
    assert forall|i: int| 0 <= i < d.len() implies {
        &&& digest_text(d)[7 + 2 * i] == "0123456789abcdef"@[#[trigger] d[i] as int / 16]
        &&& digest_text(d)[8 + 2 * i] == "0123456789abcdef"@[d[i] as int % 16]
    } by {
        lemma_spelt_digits(0, d[i] as int / 16);
        lemma_spelt_digits(0, d[i] as int % 16);
        assert(hex(d)[2 * i] == hex_char(d[i] as int / 16));
        assert(hex(d)[2 * i + 1] == hex_char(d[i] as int % 16));
    }
}

proof fn lemma_octets_spelt(h: Seq<u8>, d: Seq<u8>)
    requires
        h.len() == 2 * d.len(),
    ensures
        octets(h) == Some(d) <==> forall|i: int|
            0 <= i < d.len() ==> spells_digit(h[2 * i] as char, #[trigger] d[i] as int / 16)
                && spells_digit(h[2 * i + 1] as char, d[i] as int % 16),
    decreases d.len(),
{
    if d.len() == 0 {
        assert(d =~= seq![]);
    } else {
        let rest = h.skip(2);
        let less = d.skip(1);
        lemma_octets_spelt(rest, less);
        lemma_spelt_digits(h[0], d[0] as int / 16);
        lemma_spelt_digits(h[1], d[0] as int % 16);
        let spelt = forall|i: int|
            0 <= i < d.len() ==> spells_digit(h[2 * i] as char, #[trigger] d[i] as int / 16)
                && spells_digit(h[2 * i + 1] as char, d[i] as int % 16);
        if spelt {
            let at: int = 0;
            assert(spells_digit(h[2 * at] as char, d[at] as int / 16));
            assert forall|i: int| 0 <= i < less.len() implies spells_digit(
                rest[2 * i] as char,
                #[trigger] less[i] as int / 16,
            ) && spells_digit(rest[2 * i + 1] as char, less[i] as int % 16) by {
                assert(less[i] == d[i + 1]);
                assert(h[2 * (i + 1)] == rest[2 * i]);
                assert(h[2 * (i + 1) + 1] == rest[2 * i + 1]);
            }
            assert(octet(h[0], h[1]) == Some(d[0]));
            assert(seq![d[0]] + less =~= d);
        }
        if octets(h) == Some(d) {
            let b = octet(h[0], h[1])->Some_0;
            assert((seq![b] + octets(rest)->Some_0)[0] == d[0]);
            assert((seq![b] + octets(rest)->Some_0).skip(1) =~= octets(rest)->Some_0);
            assert forall|i: int| 0 <= i < d.len() implies spells_digit(
                h[2 * i] as char,
                #[trigger] d[i] as int / 16,
            ) && spells_digit(h[2 * i + 1] as char, d[i] as int % 16) by {
                if i > 0 {
                    assert(less[i - 1] == d[i]);
                    assert(h[2 * i] == rest[2 * (i - 1)]);
                    assert(h[2 * i + 1] == rest[2 * (i - 1) + 1]);
                }
            }
        }
    }
}

proof fn lemma_octets_len(h: Seq<u8>)
    ensures
        octets(h) is Some ==> octets(h)->Some_0.len() == h.len() / 2,
    decreases h.len(),
{
    if h.len() >= 2 {
        lemma_octets_len(h.skip(2));
    }
}

/// A text reads as the digest `d` exactly if it is `blake3:` and, for each of 32
/// bytes, the two hexadecimal digits of that byte, in either case.
pub proof fn law_digest_is_read_from_its_digits(s: Seq<char>, d: Seq<u8>)
    ensures
        digest_read(s) == Ok::<Seq<u8>, SchemaFault>(d) <==> {
            &&& d.len() == 32
            &&& s.len() == 71
            &&& s.take(7) == "blake3:"@
            &&& forall|i: int|
                0 <= i < 32 ==> spells_digit(s[7 + 2 * i], #[trigger] d[i] as int / 16)
                    && spells_digit(s[8 + 2 * i], d[i] as int % 16)
        },
{
    reveal_strlit("blake3:");
    reveal_strlit("0123456789abcdef");
    reveal_strlit("0123456789ABCDEF");
    let rest = s.skip(7);
    let h = encode_utf8(rest);
    if digest_read(s) == Ok::<Seq<u8>, SchemaFault>(d) {
        assert(s.take(7) =~= "blake3:"@);
        lemma_octets_len(h);
        lemma_octets_spelt(h, d);
        let c = Seq::new(64, |i: int| h[i] as char);
        assert forall|i: int| 0 <= i < 64 implies '\0' <= #[trigger] c[i] <= '\u{7f}' by {
            let j = i / 2;
            assert(spells_digit(h[2 * j] as char, d[j] as int / 16));
            assert(spells_digit(h[2 * j + 1] as char, d[j] as int % 16));
        }
        assert(is_ascii_chars(c));
        is_ascii_chars_encode_utf8(c);
        assert(encode_utf8(c) =~= h);
        lemma_utf8_injective(rest, c);
        assert forall|i: int| 0 <= i < 32 implies spells_digit(
            s[7 + 2 * i],
            #[trigger] d[i] as int / 16,
        ) && spells_digit(s[8 + 2 * i], d[i] as int % 16) by {
            assert(s[7 + 2 * i] == rest[2 * i]);
            assert(s[8 + 2 * i] == rest[2 * i + 1]);
        }
    }
    if d.len() == 32 && s.len() == 71 && s.take(7) == "blake3:"@ && (forall|i: int|
        0 <= i < 32 ==> spells_digit(s[7 + 2 * i], #[trigger] d[i] as int / 16) && spells_digit(
            s[8 + 2 * i],
            d[i] as int % 16,
        )) {
        assert("blake3:"@.is_prefix_of(s)) by {
            assert(s.take(7) =~= s.subrange(0, 7));
        }
        assert forall|i: int| 0 <= i < rest.len() implies '\0' <= #[trigger] rest[i]
            <= '\u{7f}' by {
            let j = i / 2;
            assert(spells_digit(s[7 + 2 * j], d[j] as int / 16));
            assert(spells_digit(s[8 + 2 * j], d[j] as int % 16));
            assert(rest[i] == s[7 + i]);
        }
        assert(is_ascii_chars(rest));
        is_ascii_chars_encode_utf8(rest);
        assert forall|i: int| 0 <= i < d.len() implies spells_digit(
            h[2 * i] as char,
            #[trigger] d[i] as int / 16,
        ) && spells_digit(h[2 * i + 1] as char, d[i] as int % 16) by {
            assert(rest[2 * i] == s[7 + 2 * i]);
            assert(rest[2 * i + 1] == s[8 + 2 * i]);
            assert(h[2 * i] == rest[2 * i] as u8);
            assert(h[2 * i + 1] == rest[2 * i + 1] as u8);
        }
        lemma_octets_spelt(h, d);
    }
}

/// What is wrong with the text of a digest is reported: a missing prefix with the
/// text, a wrong length with the number of bytes, and anything else as a digit.
pub proof fn law_faulty_digests_are_reported(s: Seq<char>, rest: Seq<char>)
    ensures
        (s.len() < 7 || s.take(7) != "blake3:"@) ==> digest_read(s) == Err::<Seq<u8>, SchemaFault>(
            SchemaFault::Validation("digest missing 'blake3:' prefix: "@ + s),
        ),
        encode_utf8(rest).len() != 64 ==> digest_read("blake3:"@ + rest) == Err::<
            Seq<u8>,
            SchemaFault,
        >(
            SchemaFault::Validation(
                "digest hex length "@ + decimal(encode_utf8(rest).len()) + " (want 64)"@,
            ),
        ),
        encode_utf8(rest).len() == 64 && digest_read("blake3:"@ + rest) is Err ==> digest_read(
            "blake3:"@ + rest,
        )->Err_0 == SchemaFault::Validation("digest hex parse: invalid digit found in string"@),
{
    reveal_strlit("blake3:");
    let whole = "blake3:"@ + rest;
    assert("blake3:"@.is_prefix_of(whole));
    assert(whole.skip(7) =~= rest);
    if "blake3:"@.is_prefix_of(s) {
        assert(s.take(7) =~= "blake3:"@);
    }
}

} // verus!
