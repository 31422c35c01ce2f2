//! Text: comparing, joining, splitting and trimming.

use vstd::prelude::*;
use vstd::string::*;
use vstd::utf8::encode_utf8;

verus! {

broadcast use vstd::string::group_string_axioms;

/// Two texts with the same UTF-8 bytes are the same text.
pub proof fn lemma_utf8_injective(a: Seq<char>, b: Seq<char>)
    requires
        encode_utf8(a) == encode_utf8(b),
    ensures
        a == b,
{
    vstd::utf8::encode_utf8_decode_utf8(a);
    vstd::utf8::encode_utf8_decode_utf8(b);
}

/// Whether two texts are equal.
pub fn same_text(a: &str, b: &str) -> (same: bool)
    ensures
        same == (a@ == b@),
{
    let x: &[u8] = a.as_bytes();
    let y: &[u8] = b.as_bytes();
    if x.len() != y.len() {
        return false;
    }
    let mut i: usize = 0;
    while i < x.len()
        invariant
            x@ == encode_utf8(a@),
            y@ == encode_utf8(b@),
            x@.len() == y@.len(),
            i <= x@.len(),
            forall|j: int| 0 <= j < i ==> x@[j] == y@[j],
        decreases x@.len() - i,
    {
        if x[i] != y[i] {
            return false;
        }
        i = i + 1;
    }
    proof {
        assert(x@ =~= y@);
        lemma_utf8_injective(a@, b@);
    }
    true
}

/// `a` followed by `b`.
pub fn concat2(a: &str, b: &str) -> (r: String)
    ensures
        r@ == a@ + b@,
{
    let mut r: String = a.to_owned();
    r.append(b);
    r
}

/// `a` followed by `b` followed by `c`.
pub fn concat3(a: &str, b: &str, c: &str) -> (r: String)
    ensures
        r@ == a@ + b@ + c@,
{
    let mut r: String = a.to_owned();
    r.append(b);
    r.append(c);
    r
}

/// The decimal digit `d` stands for.
pub open spec fn decimal_digit(d: nat) -> char {
    (48 + d) as char
}

/// `n` in decimal, without leading zeros.
pub open spec fn decimal(n: nat) -> Seq<char>
    decreases n,
{
    if n < 10 {
        seq![decimal_digit(n)]
    } else {
        decimal(n / 10).push(decimal_digit(n % 10))
    }
}

/// `n` in decimal.
pub fn decimal_text(n: u64) -> (r: String)
    ensures
        r@ == decimal(n as nat),
    decreases n,
{
    let mut r: String = if n < 10 {
        String::new()
    } else {
        decimal_text(n / 10)
    };
    let d: u8 = (n % 10) as u8;
    r.push((48u8 + d) as char);
    r
}

/// The pieces of `s` between the occurrences of `sep`: one more than there
/// are occurrences.
pub open spec fn pieces(s: Seq<char>, sep: char) -> Seq<Seq<char>>
    decreases s.len(),
{
    if s.len() == 0 {
        seq![Seq::<char>::empty()]
    } else {
        let before = pieces(s.drop_last(), sep);
        if s.last() == sep {
            before.push(Seq::<char>::empty())
        } else {
            before.drop_last().push(before.last().push(s.last()))
        }
    }
}

/// A text without `sep` is its own only piece.
pub proof fn lemma_one_piece(s: Seq<char>, sep: char)
    requires
        !s.contains(sep),
    ensures
        pieces(s, sep) == seq![s],
    decreases s.len(),
{
    if s.len() == 0 {
        assert(s =~= Seq::<char>::empty());
    } else {
        assert(s[s.len() - 1] != sep);
        assert forall|i: int| 0 <= i < s.drop_last().len() implies s.drop_last()[i] != sep by {
            assert(s[i] != sep);
        }
        lemma_one_piece(s.drop_last(), sep);
        assert(s.drop_last().push(s.last()) =~= s);
        assert(pieces(s, sep) =~= seq![s]);
    }
}

/// What follows one more `sep` is one more piece.
pub proof fn lemma_one_more_piece(s: Seq<char>, sep: char, t: Seq<char>)
    requires
        !t.contains(sep),
    ensures
        pieces(s + seq![sep] + t, sep) == pieces(s, sep).push(t),
    decreases t.len(),
{
    let whole = s + seq![sep] + t;
    if t.len() == 0 {
        assert(t =~= Seq::<char>::empty());
        assert(whole.drop_last() =~= s);
    } else {
        assert(t[t.len() - 1] != sep);
        assert forall|i: int| 0 <= i < t.drop_last().len() implies t.drop_last()[i] != sep by {
            assert(t[i] != sep);
        }
        lemma_one_more_piece(s, sep, t.drop_last());
        assert(whole.drop_last() =~= s + seq![sep] + t.drop_last());
        assert(t.drop_last().push(t.last()) =~= t);
        assert(pieces(s, sep).push(t.drop_last()).drop_last() =~= pieces(s, sep));
    }
}

/// The views of a list of strings.
pub open spec fn texts(list: Seq<String>) -> Seq<Seq<char>> {
    list.map_values(|s: String| s@)
}

/// Splits `s` at every `sep`.
pub fn split(s: &str, sep: char) -> (r: Vec<String>)
    ensures
        texts(r@) == pieces(s@, sep),
        r@.len() >= 1,
{
    let mut done: Vec<String> = Vec::new();
    let mut open: String = String::new();
    assert(texts(done@).push(open@) =~= seq![Seq::<char>::empty()]);
    for c in it: s.chars()
        invariant
            it.seq() == s@,
            texts(done@).push(open@) == pieces(s@.take(it.index()), sep),
    {
        let ghost k = it.index();
        assert(s@.take(k + 1).drop_last() =~= s@.take(k));
        let ghost before = pieces(s@.take(k), sep);
        assert(before.drop_last() =~= texts(done@));
        assert(before.last() == open@);
        if c == sep {
            done.push(open);
            open = String::new();
            assert(texts(done@) =~= before);
        } else {
            open.push(c);
        }
    }
    assert(s@.take(s@.len() as int) =~= s@);
    let ghost before = texts(done@).push(open@);
    done.push(open);
    assert(texts(done@) =~= before);
    done
}

/// Whether `list` holds the text `s`.
pub fn holds(list: &Vec<String>, s: &str) -> (r: bool)
    ensures
        r == texts(list@).contains(s@),
{
    let mut i: usize = 0;
    while i < list.len()
        invariant
            i <= list@.len(),
            forall|j: int| 0 <= j < i ==> #[trigger] texts(list@)[j] != s@,
        decreases list@.len() - i,
    {
        if same_text(list[i].as_str(), s) {
            assert(texts(list@)[i as int] == s@);
            return true;
        }
        assert(texts(list@)[i as int] != s@);
        i = i + 1;
    }
    false
}

/// A copy of `list`.
pub fn copies(list: &Vec<String>) -> (r: Vec<String>)
    ensures
        texts(r@) == texts(list@),
{
    let mut r: Vec<String> = Vec::new();
    let mut i: usize = 0;
    while i < list.len()
        invariant
            i <= list@.len(),
            r@.len() == i,
            forall|j: int| 0 <= j < i ==> #[trigger] r@[j] == list@[j],
        decreases list@.len() - i,
    {
        r.push(list[i].clone());
        i = i + 1;
    }
    assert(texts(r@) =~= texts(list@));
    r
}

/// The characters of `s`, one by one.
pub fn chars_of(s: &str) -> (r: Vec<char>)
    ensures
        r@ == s@,
{
    let mut r: Vec<char> = Vec::new();
    for c in it: s.chars()
        invariant
            it.seq() == s@,
            r@ == s@.take(it.index()),
    {
        r.push(c);
    }
    r
}

/// What follows `prefix` in `s`, if `s` starts with it.
pub fn strip_prefix(s: &str, prefix: &str) -> (r: Option<String>)
    ensures
        match r {
            Some(rest) => s@ == prefix@ + rest@,
            None => !prefix@.is_prefix_of(s@),
        },
{
    let head: Vec<char> = chars_of(prefix);
    let all: Vec<char> = chars_of(s);
    if all.len() < head.len() {
        return None;
    }
    let mut i: usize = 0;
    while i < head.len()
        invariant
            head@ == prefix@,
            all@ == s@,
            i <= head@.len() <= all@.len(),
            forall|j: int| 0 <= j < i ==> head@[j] == all@[j],
        decreases head@.len() - i,
    {
        if head[i] != all[i] {
            return None;
        }
        i = i + 1;
    }
    let mut rest: String = String::new();
    while i < all.len()
        invariant
            head@ == prefix@,
            all@ == s@,
            head@.len() <= i <= all@.len(),
            forall|j: int| 0 <= j < head@.len() ==> head@[j] == all@[j],
            prefix@ + rest@ == all@.take(i as int),
        decreases all@.len() - i,
    {
        let ghost before = prefix@ + rest@;
        rest.push(all[i]);
        i = i + 1;
        assert(prefix@ + rest@ =~= before.push(all@[i - 1]));
        assert(all@.take(i as int) =~= all@.take(i - 1).push(all@[i - 1]));
    }
    Some(rest)
}

/// Whether `c` is white space: it has the Unicode property `White_Space`.
pub open spec fn white_space(c: char) -> bool {
    ||| '\u{9}' <= c <= '\u{d}'
    ||| c == '\u{20}'
    ||| c == '\u{85}'
    ||| c == '\u{a0}'
    ||| c == '\u{1680}'
    ||| '\u{2000}' <= c <= '\u{200a}'
    ||| c == '\u{2028}'
    ||| c == '\u{2029}'
    ||| c == '\u{202f}'
    ||| c == '\u{205f}'
    ||| c == '\u{3000}'
}

/// Whether `c` is white space.
pub fn is_white_space(c: char) -> (r: bool)
    ensures
        r == white_space(c),
{
    ('\u{9}' <= c && c <= '\u{d}') || c == '\u{20}' || c == '\u{85}' || c == '\u{a0}' || c
        == '\u{1680}' || ('\u{2000}' <= c && c <= '\u{200a}') || c == '\u{2028}' || c
        == '\u{2029}' || c == '\u{202f}' || c == '\u{205f}' || c == '\u{3000}'
}

/// `s` without the white space at its start.
pub open spec fn trim_start(s: Seq<char>) -> Seq<char>
    decreases s.len(),
{
    if s.len() > 0 && white_space(s[0]) {
        trim_start(s.drop_first())
    } else {
        s
    }
}

/// `s` without the white space at its end.
pub open spec fn trim_end(s: Seq<char>) -> Seq<char>
    decreases s.len(),
{
    if s.len() > 0 && white_space(s.last()) {
        trim_end(s.drop_last())
    } else {
        s
    }
}

/// `s` without the white space at its two ends.
pub open spec fn trimmed(s: Seq<char>) -> Seq<char> {
    trim_end(trim_start(s))
}

proof fn lemma_trim_start_push(s: Seq<char>, c: char)
    ensures
        trim_start(s.push(c)) == if trim_start(s).len() == 0 && white_space(c) {
            Seq::<char>::empty()
        } else {
            trim_start(s).push(c)
        },
    decreases s.len(),
{
    if s.len() == 0 {
        assert(s.push(c).drop_first() =~= s);
        assert(trim_start(s) == s);
        assert(s =~= Seq::<char>::empty());
    } else if white_space(s[0]) {
        assert(s.push(c).drop_first() =~= s.drop_first().push(c));
        lemma_trim_start_push(s.drop_first(), c);
    }
}

/// A newline at the end is trimmed.
pub proof fn lemma_trim_newline(s: Seq<char>)
    ensures
        trimmed(s.push('\n')) == trimmed(s),
{
    lemma_trim_start_push(s, '\n');
    let start = trim_start(s);
    if start.len() == 0 {
        assert(start =~= Seq::<char>::empty());
    } else {
        assert(start.push('\n').drop_last() =~= start);
    }
}

proof fn lemma_trim_end_gap(kept: Seq<char>, gap: Seq<char>)
    requires
        kept.len() == 0 || !white_space(kept.last()),
        forall|i: int| 0 <= i < gap.len() ==> white_space(#[trigger] gap[i]),
    ensures
        trim_end(kept + gap) == kept,
    decreases gap.len(),
{
    if gap.len() == 0 {
        assert(kept + gap =~= kept);
    } else {
        assert((kept + gap).drop_last() =~= kept + gap.drop_last());
        assert((kept + gap).last() == gap[gap.len() - 1]);
        lemma_trim_end_gap(kept, gap.drop_last());
    }
}

/// `s` without the white space at its two ends.
pub fn trim(s: &str) -> (r: String)
    ensures
        r@ == trimmed(s@),
{
    let mut kept: String = String::new();
    let mut gap: String = String::new();
    assert(kept@ + gap@ =~= s@.take(0));
    for c in it: s.chars()
        invariant
            it.seq() == s@,
            trim_start(s@.take(it.index())) == kept@ + gap@,
            kept@.len() == 0 || !white_space(kept@.last()),
            kept@.len() == 0 ==> gap@.len() == 0,
            forall|i: int| 0 <= i < gap@.len() ==> white_space(#[trigger] gap@[i]),
    {
        let ghost k = it.index();
        proof {
            assert(s@.take(k + 1) =~= s@.take(k).push(c));
            lemma_trim_start_push(s@.take(k), c);
        }
        if is_white_space(c) {
            if !kept.as_str().is_empty() {
                let ghost before = kept@ + gap@;
                gap.push(c);
                assert(kept@ + gap@ =~= before.push(c));
            } else {
                assert(kept@ + gap@ =~= Seq::<char>::empty());
            }
        } else {
            let ghost before = kept@ + gap@;
            kept.append(gap.as_str());
            kept.push(c);
            gap = String::new();
            assert(kept@ + gap@ =~= before.push(c));
        }
    }
    proof {
        assert(s@.take(s@.len() as int) =~= s@);
        lemma_trim_end_gap(kept@, gap@);
    }
    kept
}

// --------------------------------------------------------------- laws

/// The texts of a list of strings are their characters, string by string.
pub proof fn law_texts_are_the_strings(list: Seq<String>)
    ensures
        texts(list).len() == list.len(),
        forall|i: int| 0 <= i < list.len() ==> #[trigger] texts(list)[i] == list[i]@,
{
}

/// `parts` one after another, with `sep` between them.
pub open spec fn rejoined(parts: Seq<Seq<char>>, sep: char) -> Seq<char>
    decreases parts.len(),
{
    if parts.len() == 0 {
        seq![]
    } else if parts.len() == 1 {
        parts[0]
    } else {
        rejoined(parts.drop_last(), sep) + seq![sep] + parts.last()
    }
}

/// The pieces of a text, with the separator between them, make up the text again;
/// and none of them holds the separator.
pub proof fn law_pieces_make_up_the_text(s: Seq<char>, sep: char)
    ensures
        pieces(s, sep).len() >= 1,
        rejoined(pieces(s, sep), sep) == s,
        forall|i: int| 0 <= i < pieces(s, sep).len() ==> !(#[trigger] pieces(s, sep)[i]).contains(sep),
    decreases s.len(),
{
    if s.len() == 0 {
        assert(s =~= Seq::<char>::empty());
    } else {
        let less = s.drop_last();
        law_pieces_make_up_the_text(less, sep);
        let before = pieces(less, sep);
        let now = pieces(s, sep);
        assert(less.push(s.last()) =~= s);
        if s.last() == sep {
            assert(now.drop_last() =~= before);
            assert(rejoined(before, sep) + seq![sep] + Seq::<char>::empty() =~= s);
        } else {
            let n = before.len() - 1;
            assert(!before[n].contains(sep));
            assert forall|i: int| 0 <= i < now.len() implies !(#[trigger] now[i]).contains(sep) by {
                if i < n {
                    assert(now[i] == before[i]);
                } else if now[i].contains(sep) {
                    let j = choose|j: int| 0 <= j < now[i].len() && now[i][j] == sep;
                    assert(before[n][j] == sep);
                }
            }
            if n == 0 {
                assert(now =~= seq![before[0].push(s.last())]);
            } else {
                assert(now.drop_last() =~= before.drop_last());
                assert(rejoined(before.drop_last(), sep) + seq![sep] + before.last().push(s.last())
                    =~= (rejoined(before.drop_last(), sep) + seq![sep] + before.last()).push(
                    s.last(),
                ));
            }
        }
    }
}

/// The number that decimal digits say.
pub open spec fn decimal_value(digits: Seq<char>) -> int
    decreases digits.len(),
{
    if digits.len() == 0 {
        0
    } else {
        10 * decimal_value(digits.drop_last()) + (digits.last() as int - '0' as int)
    }
}

/// A number in decimal is made of digits, says the number, and has no zero to
/// begin with but for the number zero.
pub proof fn law_decimal_says_the_number(n: nat)
    ensures
        decimal_value(decimal(n)) == n,
        decimal(n).len() >= 1,
        forall|i: int| 0 <= i < decimal(n).len() ==> '0' <= #[trigger] decimal(n)[i] <= '9',
        n > 0 ==> decimal(n)[0] != '0',
    decreases n,
{
    reveal_with_fuel(decimal_value, 2);
    if n >= 10 {
        law_decimal_says_the_number(n / 10);
        assert(decimal(n).drop_last() =~= decimal(n / 10));
        assert(decimal(n)[0] == decimal(n / 10)[0]);
    } else {
        assert(decimal(n).drop_last() =~= Seq::<char>::empty());
    }
}

proof fn lemma_trim_start(s: Seq<char>)
    ensures
        trim_start(s).len() <= s.len(),
        trim_start(s) == s.skip(s.len() - trim_start(s).len()),
        forall|i: int|
            0 <= i < s.len() - trim_start(s).len() ==> white_space(#[trigger] s[i]),
        trim_start(s).len() > 0 ==> !white_space(trim_start(s)[0]),
    decreases s.len(),
{
    if s.len() > 0 && white_space(s[0]) {
        let rest = s.drop_first();
        lemma_trim_start(rest);
        let n = rest.len() - trim_start(rest).len();
        assert(rest.skip(n) =~= s.skip(n + 1));
        assert forall|i: int| 0 <= i < s.len() - trim_start(s).len() implies white_space(
            #[trigger] s[i],
        ) by {
            if i > 0 {
                assert(rest[i - 1] == s[i]);
            }
        }
    } else {
        assert(s.skip(0) =~= s);
    }
}

proof fn lemma_trim_end(s: Seq<char>)
    ensures
        trim_end(s).len() <= s.len(),
        trim_end(s) == s.take(trim_end(s).len() as int),
        forall|i: int| trim_end(s).len() <= i < s.len() ==> white_space(#[trigger] s[i]),
        trim_end(s).len() > 0 ==> !white_space(trim_end(s).last()),
    decreases s.len(),
{
    if s.len() > 0 && white_space(s.last()) {
        let rest = s.drop_last();
        lemma_trim_end(rest);
        assert(rest.take(trim_end(rest).len() as int) =~= s.take(trim_end(rest).len() as int));
        assert forall|i: int| trim_end(s).len() <= i < s.len() implies white_space(
            #[trigger] s[i],
        ) by {
            if i < rest.len() {
                assert(rest[i] == s[i]);
            }
        }
    } else {
        assert(s.take(s.len() as int) =~= s);
    }
}

/// Trimming takes off white space at the two ends and nothing else: what stands
/// between white space comes back as it is, if it starts and ends with none.
pub proof fn law_trimming_keeps_what_stands_between(
    before: Seq<char>,
    core: Seq<char>,
    after: Seq<char>,
)
    requires
        forall|i: int| 0 <= i < before.len() ==> white_space(#[trigger] before[i]),
        forall|i: int| 0 <= i < after.len() ==> white_space(#[trigger] after[i]),
        core.len() > 0 ==> !white_space(core[0]) && !white_space(core.last()),
    ensures
        trimmed(before + core + after) == core,
{
    let s = before + core + after;
    lemma_trim_start(s);
    let start = trim_start(s);
    let k = s.len() - start.len();
    if core.len() == 0 {
        if start.len() > 0 {
            assert(start[0] == s[k]);
            if k < before.len() {
                assert(s[k] == before[k]);
            } else {
                assert(s[k] == after[k - before.len()]);
            }
        }
        assert(start =~= core);
        assert(trim_end(start) =~= core);
    } else {
        if k < before.len() {
            assert(start[0] == s[k] && s[k] == before[k]);
        }
        if k > before.len() {
            assert(s[before.len() as int] == core[0]);
        }
        assert(start =~= core + after);
        lemma_trim_end_gap(core, after);
    }
}

/// White space are the 25 characters with the Unicode property `White_Space`, by
/// their code points.
pub proof fn law_white_space_by_code_point(c: char)
    ensures
        white_space(c) <==> set![
            0x9u32, 0xa, 0xb, 0xc, 0xd, 0x20, 0x85, 0xa0, 0x1680, 0x2000, 0x2001, 0x2002, 0x2003,
            0x2004, 0x2005, 0x2006, 0x2007, 0x2008, 0x2009, 0x200a, 0x2028, 0x2029, 0x202f, 0x205f,
            0x3000,
        ].contains(c as u32),
{
}

} // verus!
