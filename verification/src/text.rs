//! Operations on text, stated over the characters that a string holds.

use vstd::prelude::*;
use vstd::string::*;
use vstd::utf8::*;

verus! {

/// The characters of `s`, in order.
pub fn chars_of(s: &str) -> (chars: Vec<char>)
    ensures
        chars@ == s@,
{
    let mut chars: Vec<char> = Vec::new();
    for c in it: s.chars()
        invariant
            it.seq() == s@,
            chars@ == s@.take(it.index() as int),
    {
        chars.push(c);
        assert(s@.take(it.index() + 1) =~= s@.take(it.index() as int).push(c));
    }
    assert(s@.take(s@.len() as int) =~= s@);
    chars
}

/// Whether `a` and `b` hold the same characters.
pub fn same_text(a: &str, b: &str) -> (same: bool)
    ensures
        same == (a@ == b@),
{
    let x: Vec<char> = chars_of(a);
    let y: Vec<char> = chars_of(b);
    if x.len() != y.len() {
        return false;
    }
    let mut i: usize = 0;
    while i < x.len()
        invariant
            i <= x.len(),
            x@.len() == y@.len(),
            x@ == a@,
            y@ == b@,
            forall|k: int| 0 <= k < i ==> x@[k] == y@[k],
        decreases x.len() - i,
    {
        if x[i] != y[i] {
            return false;
        }
        i += 1;
    }
    assert(a@ =~= b@);
    true
}

/// What is left of `s` behind `prefix`, or nothing where `s` does not begin with `prefix`.
pub fn strip_prefix<'a>(s: &'a str, prefix: &str) -> (rest: Option<&'a str>)
    ensures
        rest is Some <==> prefix@.is_prefix_of(s@),
        rest matches Some(r) ==> r@ == s@.skip(prefix@.len() as int),
{
    let x: Vec<char> = chars_of(s);
    let y: Vec<char> = chars_of(prefix);
    if y.len() > x.len() {
        return None;
    }
    let mut i: usize = 0;
    while i < y.len()
        invariant
            i <= y.len() <= x.len(),
            x@ == s@,
            y@ == prefix@,
            forall|k: int| 0 <= k < i ==> x@[k] == y@[k],
        decreases y.len() - i,
    {
        if x[i] != y[i] {
            assert(!prefix@.is_prefix_of(s@)) by {
                if prefix@.is_prefix_of(s@) {
                    assert(s@.subrange(0, prefix@.len() as int)[i as int] == s@[i as int]);
                }
            }
            return None;
        }
        i += 1;
    }
    assert(prefix@ =~= s@.subrange(0, prefix@.len() as int));
    Some(s.substring_char(y.len(), x.len()))
}

/// What is left of `s` before `suffix`, or nothing where `s` does not end with `suffix`.
pub fn strip_suffix<'a>(s: &'a str, suffix: &str) -> (rest: Option<&'a str>)
    ensures
        rest is Some <==> suffix@.is_suffix_of(s@),
        rest matches Some(r) ==> r@ == s@.take(s@.len() - suffix@.len()),
{
    let x: Vec<char> = chars_of(s);
    let y: Vec<char> = chars_of(suffix);
    if y.len() > x.len() {
        return None;
    }
    let start: usize = x.len() - y.len();
    let mut i: usize = 0;
    while i < y.len()
        invariant
            i <= y.len() <= x.len(),
            start == x.len() - y.len(),
            x@ == s@,
            y@ == suffix@,
            forall|k: int| 0 <= k < i ==> x@[start + k] == y@[k],
        decreases y.len() - i,
    {
        if x[start + i] != y[i] {
            assert(!suffix@.is_suffix_of(s@)) by {
                if suffix@.is_suffix_of(s@) {
                    assert(s@.subrange(start as int, s@.len() as int)[i as int] == s@[start + i]);
                }
            }
            return None;
        }
        i += 1;
    }
    assert(suffix@ =~= s@.subrange(start as int, s@.len() as int));
    Some(s.substring_char(0, start))
}

/// The characters with the Unicode property `White_Space`.
pub open spec fn is_white(c: char) -> bool {
    ||| '\u{9}' <= c <= '\u{d}'
    ||| c == ' '
    ||| c == '\u{85}'
    ||| c == '\u{a0}'
    ||| c == '\u{1680}'
    ||| '\u{2000}' <= c <= '\u{200a}'
    ||| c == '\u{2028}'
    ||| c == '\u{2029}'
    ||| c == '\u{202f}'
    ||| c == '\u{205f}'
    ||| c == '\u{3000}'
}

/// Whether `c` has the Unicode property `White_Space`.
pub fn white(c: char) -> (w: bool)
    ensures
        w == is_white(c),
{
    ('\u{9}' <= c && c <= '\u{d}') || c == ' ' || c == '\u{85}' || c == '\u{a0}' || c == '\u{1680}'
        || ('\u{2000}' <= c && c <= '\u{200a}') || c == '\u{2028}' || c == '\u{2029}'
        || c == '\u{202f}' || c == '\u{205f}' || c == '\u{3000}'
}

/// `s` without the white space that it begins with.
pub open spec fn trimmed_start(s: Seq<char>) -> Seq<char>
    decreases s.len(),
{
    if s.len() > 0 && is_white(s[0]) {
        trimmed_start(s.skip(1))
    } else {
        s
    }
}

/// `s` without the white space that it ends with.
pub open spec fn trimmed_end(s: Seq<char>) -> Seq<char>
    decreases s.len(),
{
    if s.len() > 0 && is_white(s.last()) {
        trimmed_end(s.drop_last())
    } else {
        s
    }
}

/// `s` without the white space at its two ends.
pub open spec fn trimmed(s: Seq<char>) -> Seq<char> {
    trimmed_end(trimmed_start(s))
}

/// `s` without the white space at its two ends.
pub fn trim(s: &str) -> (t: &str)
    ensures
        t@ == trimmed(s@),
{
    let x: Vec<char> = chars_of(s);
    let mut from: usize = 0;
    assert(s@.skip(0) =~= s@);
    while from < x.len() && white(x[from])
        invariant
            from <= x.len(),
            x@ == s@,
            trimmed_start(s@) == trimmed_start(s@.skip(from as int)),
        decreases x.len() - from,
    {
        assert(s@.skip(from as int).skip(1) =~= s@.skip(from + 1));
        from += 1;
    }
    let mut to: usize = x.len();
    let ghost rest = s@.skip(from as int);
    assert(trimmed_start(s@) == rest);
    assert(s@.subrange(from as int, to as int) =~= rest);
    while to > from && white(x[to - 1])
        invariant
            from <= to <= x.len(),
            x@ == s@,
            trimmed_end(rest) == trimmed_end(s@.subrange(from as int, to as int)),
        decreases to,
    {
        let ghost part = s@.subrange(from as int, to as int);
        assert(part.drop_last() =~= s@.subrange(from as int, to - 1));
        assert(part.last() == s@[to - 1]);
        to -= 1;
    }
    let ghost part = s@.subrange(from as int, to as int);
    assert(to > from ==> part.last() == s@[to - 1]);
    s.substring_char(from, to)
}

/// Trimming takes white space off both ends and nothing else: a text is white space, what trimming
/// leaves of it, and white space again, and what is left neither begins nor ends with white space.
pub proof fn law_trim_takes_only_white_space(s: Seq<char>)
    ensures
        exists|from: int, to: int|
            {
                &&& 0 <= from <= to <= s.len()
                &&& trimmed(s) == #[trigger] s.subrange(from, to)
                &&& forall|k: int| 0 <= k < from || to <= k < s.len() ==> is_white(#[trigger] s[k])
            },
        trimmed(s).len() > 0 ==> !is_white(trimmed(s)[0]) && !is_white(trimmed(s).last()),
{
    let from = lemma_trimmed_start(s);
    let rest = s.skip(from);
    let to = lemma_trimmed_end(rest);
    assert(rest.take(to) =~= s.subrange(from, from + to));
    assert forall|k: int| 0 <= k < from || from + to <= k < s.len() implies is_white(
        #[trigger] s[k],
    ) by {
        if k >= from + to {
            assert(rest[k - from] == s[k]);
        }
    }
    assert(0 <= from <= from + to <= s.len());
}

/// Blanks, tabs and line ends are white space, and no visible character of ASCII is.
pub proof fn law_white_space_is_invisible(c: char)
    ensures
        c == ' ' || c == '\t' || c == '\n' || c == '\r' ==> is_white(c),
        '!' <= c <= '~' ==> !is_white(c),
{
}

proof fn lemma_trimmed_start(s: Seq<char>) -> (from: int)
    ensures
        0 <= from <= s.len(),
        trimmed_start(s) == s.skip(from),
        forall|k: int| 0 <= k < from ==> is_white(#[trigger] s[k]),
        from < s.len() ==> !is_white(s[from]),
    decreases s.len(),
{
    if s.len() > 0 && is_white(s[0]) {
        let rest = lemma_trimmed_start(s.skip(1));
        assert(s.skip(1).skip(rest) =~= s.skip(rest + 1));
        assert forall|k: int| 0 <= k < rest + 1 implies is_white(#[trigger] s[k]) by {
            if k > 0 {
                assert(s.skip(1)[k - 1] == s[k]);
            }
        }
        rest + 1
    } else {
        assert(s.skip(0) =~= s);
        0
    }
}

proof fn lemma_trimmed_end(s: Seq<char>) -> (to: int)
    ensures
        0 <= to <= s.len(),
        trimmed_end(s) == s.take(to),
        forall|k: int| to <= k < s.len() ==> is_white(#[trigger] s[k]),
        to > 0 ==> !is_white(s[to - 1]),
    decreases s.len(),
{
    if s.len() > 0 && is_white(s.last()) {
        let to = lemma_trimmed_end(s.drop_last());
        assert(s.drop_last().take(to) =~= s.take(to));
        assert forall|k: int| to <= k < s.len() implies is_white(#[trigger] s[k]) by {
            if k < s.len() - 1 {
                assert(s.drop_last()[k] == s[k]);
            }
        }
        to
    } else {
        assert(s.take(s.len() as int) =~= s);
        s.len() as int
    }
}

/// Whether `part` stands in `s` at the place `at`.
pub open spec fn stands_at(s: Seq<char>, part: Seq<char>, at: int) -> bool {
    &&& 0 <= at <= s.len() - part.len()
    &&& s.subrange(at, at + part.len()) == part
}

/// Whether `part` stands somewhere in `s`.
pub open spec fn holds_part(s: Seq<char>, part: Seq<char>) -> bool {
    exists|at: int| stands_at(s, part, at)
}

/// Whether `part` stands somewhere in `s`.
pub fn contains(s: &str, part: &str) -> (found: bool)
    ensures
        found == holds_part(s@, part@),
{
    let x: Vec<char> = chars_of(s);
    let y: Vec<char> = chars_of(part);
    if y.len() > x.len() {
        return false;
    }
    let mut at: usize = 0;
    while at <= x.len() - y.len()
        invariant
            at <= x.len() - y.len() + 1,
            y.len() <= x.len(),
            x@ == s@,
            y@ == part@,
            forall|k: int| 0 <= k < at ==> !stands_at(s@, part@, k),
        decreases x.len() - y.len() + 1 - at,
    {
        let mut i: usize = 0;
        while i < y.len() && x[at + i] == y[i]
            invariant
                i <= y.len(),
                at + y.len() <= x.len(),
                x@ == s@,
                y@ == part@,
                forall|k: int| 0 <= k < i ==> x@[at + k] == y@[k],
            decreases y.len() - i,
        {
            i += 1;
        }
        if i == y.len() {
            assert(s@.subrange(at as int, at + part@.len()) =~= part@);
            assert(stands_at(s@, part@, at as int));
            return true;
        }
        assert(!stands_at(s@, part@, at as int)) by {
            if stands_at(s@, part@, at as int) {
                assert(s@.subrange(at as int, at + part@.len())[i as int] == s@[at + i]);
            }
        }
        if at == x.len() - y.len() {
            assert forall|k: int| !stands_at(s@, part@, k) by {}
            return false;
        }
        at += 1;
    }
    false
}

/// The texts that a list of strings holds.
pub open spec fn texts(list: Seq<String>) -> Seq<Seq<char>> {
    list.map_values(|s: String| s@)
}

/// Whether `word` is one of a list of texts.
pub fn among(list: &Vec<String>, word: &str) -> (found: bool)
    ensures
        found == texts(list@).contains(word@),
{
    let ghost words = texts(list@);
    let mut i: usize = 0;
    while i < list.len()
        invariant
            i <= list.len(),
            words == texts(list@),
            forall|k: int| 0 <= k < i ==> #[trigger] words[k] != word@,
        decreases list.len() - i,
    {
        assert(words[i as int] == list@[i as int]@);
        if same_text(list[i].as_str(), word) {
            return true;
        }
        i += 1;
    }
    false
}

/// The texts of `list` one behind the other, with `between` between every two.
pub open spec fn joined(list: Seq<Seq<char>>, between: Seq<char>) -> Seq<char>
    decreases list.len(),
{
    if list.len() == 0 {
        Seq::empty()
    } else if list.len() == 1 {
        list[0]
    } else {
        joined(list.drop_last(), between) + between + list.last()
    }
}

/// The strings of `list` one behind the other, with `between` between every two.
pub fn join(list: &Vec<String>, between: &str) -> (all: String)
    ensures
        all@ == joined(texts(list@), between@),
{
    let mut all: String = String::new();
    let mut i: usize = 0;
    while i < list.len()
        invariant
            i <= list.len(),
            all@ == joined(texts(list@).take(i as int), between@),
        decreases list.len() - i,
    {
        let ghost before = texts(list@).take(i as int);
        let ghost after = texts(list@).take(i + 1);
        assert(after.drop_last() =~= before);
        assert(after.last() == list@[i as int]@);
        if i > 0 {
            all.append(between);
        }
        all.append(list[i].as_str());
        assert(i == 0 ==> all@ =~= after[0]);
        i += 1;
    }
    assert(texts(list@).take(list.len() as int) =~= texts(list@));
    all
}

/// A joined text holds each text of the list whole and in order: no text makes nothing, one makes
/// itself, and lists that follow one another make what the two make, with the separator between.
pub proof fn law_joined_keeps_each_text(
    one: Seq<char>,
    list: Seq<Seq<char>>,
    more: Seq<Seq<char>>,
    between: Seq<char>,
)
    requires
        list.len() > 0,
        more.len() > 0,
    ensures
        joined(Seq::empty(), between) == Seq::<char>::empty(),
        joined(seq![one], between) == one,
        joined(list + more, between) == joined(list, between) + between + joined(more, between),
    decreases more.len(),
{
    let all = list + more;
    assert(all.drop_last() =~= list + more.drop_last());
    assert(all.last() == more.last());
    if more.len() == 1 {
        assert(list + more.drop_last() =~= list);
    } else {
        law_joined_keeps_each_text(one, list, more.drop_last(), between);
        let front = joined(list, between) + between;
        let rest = joined(more.drop_last(), between);
        assert(front + rest + between + more.last() =~= front + (rest + between + more.last()));
    }
}

/// The decimal digit with the value `d`.
pub open spec fn digit(d: nat) -> char {
    if d == 0 { '0' } else if d == 1 { '1' } else if d == 2 { '2' } else if d == 3 { '3' }
    else if d == 4 { '4' } else if d == 5 { '5' } else if d == 6 { '6' } else if d == 7 { '7' }
    else if d == 8 { '8' } else { '9' }
}

/// The digits of `n` in base ten, without leading zeros.
pub open spec fn decimal(n: nat) -> Seq<char>
    decreases n,
{
    if n < 10 {
        seq![digit(n)]
    } else {
        decimal(n / 10).push(digit(n % 10))
    }
}

/// The number that a row of digits stands for in base ten.
pub open spec fn number_read(digits: Seq<char>) -> int
    decreases digits.len(),
{
    if digits.len() == 0 {
        0
    } else {
        10 * number_read(digits.drop_last()) + (digits.last() as int - '0' as int)
    }
}

/// A number that is written out is read back: its digits, and nothing but digits, without a zero
/// before them.
pub proof fn law_decimal_is_read_back(n: nat)
    ensures
        number_read(decimal(n)) == n,
        forall|k: int| 0 <= k < decimal(n).len() ==> '0' <= #[trigger] decimal(n)[k] <= '9',
        decimal(n).len() > 0,
        n > 0 ==> decimal(n)[0] != '0',
        n < 10 ==> decimal(n).len() == 1,
    decreases n,
{
    if n < 10 {
        reveal_with_fuel(number_read, 2);
    } else {
        law_decimal_is_read_back(n / 10);
        let front = decimal(n / 10);
        assert(decimal(n).drop_last() =~= front);
        assert forall|k: int| 0 <= k < decimal(n).len() implies '0' <= #[trigger] decimal(n)[k]
            <= '9' by {
            if k < front.len() {
                assert(decimal(n)[k] == front[k]);
            }
        }
        assert(decimal(n)[0] == front[0]);
    }
}

fn digit_text(d: u64) -> (s: &'static str)
    requires
        d < 10,
    ensures
        s@ == seq![digit(d as nat)],
{
    proof {
        reveal_strlit("0");
        reveal_strlit("1");
        reveal_strlit("2");
        reveal_strlit("3");
        reveal_strlit("4");
        reveal_strlit("5");
        reveal_strlit("6");
        reveal_strlit("7");
        reveal_strlit("8");
        reveal_strlit("9");
    }
    match d {
        0 => "0",
        1 => "1",
        2 => "2",
        3 => "3",
        4 => "4",
        5 => "5",
        6 => "6",
        7 => "7",
        8 => "8",
        _ => "9",
    }
}

/// `n` written in base ten.
pub fn decimal_text(n: u64) -> (s: String)
    ensures
        s@ == decimal(n as nat),
    decreases n,
{
    let mut s: String = if n >= 10 { decimal_text(n / 10) } else { String::new() };
    s.append(digit_text(n % 10));
    assert(s@ =~= decimal(n as nat));
    s
}

/// The number of bytes that `s` takes in UTF-8.
pub open spec fn byte_len(s: Seq<char>) -> nat {
    encode_utf8(s).len()
}

/// The number of bytes that `s` takes in UTF-8.
pub fn text_bytes(s: &str) -> (n: usize)
    ensures
        n == byte_len(s@),
{
    s.as_bytes().len()
}

proof fn lemma_boundary(s: Seq<char>, k: int)
    requires
        0 <= k <= s.len(),
    ensures
        is_char_boundary(encode_utf8(s), byte_len(s.take(k)) as int),
        byte_len(s.take(k)) <= byte_len(s),
    decreases k,
{
    broadcast use encode_utf8_valid_utf8;

    if k > 0 {
        let rest = s.drop_first();
        let bytes = encode_utf8(s);
        encode_utf8_first_scalar(s);
        assert(pop_first_scalar(bytes) =~= encode_utf8(rest));
        assert(s.take(k).drop_first() =~= rest.take(k - 1));
        lemma_boundary(rest, k - 1);
    }
}

proof fn lemma_boundary_place(s: Seq<char>, n: int) -> (k: int)
    requires
        is_char_boundary(encode_utf8(s), n),
    ensures
        0 <= k <= s.len(),
        byte_len(s.take(k)) == n,
        encode_utf8(s).subrange(0, n) == encode_utf8(s.take(k)),
    decreases s.len(),
{
    broadcast use encode_utf8_valid_utf8;

    let bytes = encode_utf8(s);
    if n == 0 {
        assert(bytes.subrange(0, 0) =~= encode_utf8(s.take(0)));
        0
    } else {
        let rest = s.drop_first();
        encode_utf8_first_scalar(s);
        let first = encode_scalar(s[0] as u32);
        assert(pop_first_scalar(bytes) =~= encode_utf8(rest));
        let k = lemma_boundary_place(rest, n - first.len());
        assert(s.take(k + 1).drop_first() =~= rest.take(k));
        assert(bytes.subrange(0, n) =~= first + encode_utf8(rest).subrange(0, n - first.len()));
        k + 1
    }
}

/// The beginning of `s` that takes `n` bytes in UTF-8, where a character ends there.
pub fn first_bytes(s: &str, n: usize) -> (head: Option<&str>)
    ensures
        match head {
            Some(h) => h@.is_prefix_of(s@) && byte_len(h@) == n,
            None => forall|k: int| 0 <= k <= s@.len() ==> byte_len(#[trigger] s@.take(k)) != n,
        },
{
    broadcast use {encode_utf8_valid_utf8, encode_utf8_decode_utf8};

    if s.is_char_boundary(n) {
        let (head, _rest) = s.split_at(n);
        proof {
            let k = lemma_boundary_place(s@, n as int);
            assert(decode_utf8(encode_utf8(head@)) == s@.take(k));
            assert(head@ == s@.take(k));
        }
        Some(head)
    } else {
        proof {
            assert forall|k: int| 0 <= k <= s@.len() implies byte_len(#[trigger] s@.take(k))
                != n by {
                lemma_boundary(s@, k);
            }
        }
        None
    }
}

/// `a` and `b` in one string.
pub fn cat(a: &str, b: &str) -> (s: String)
    ensures
        s@ == a@ + b@,
{
    let mut s: String = a.to_owned();
    s.append(b);
    s
}

/// `a`, `b` and `c` in one string.
pub fn cat3(a: &str, b: &str, c: &str) -> (s: String)
    ensures
        s@ == a@ + b@ + c@,
{
    let mut s: String = a.to_owned();
    s.append(b);
    s.append(c);
    s
}

/// What is left behind a prefix or before a suffix makes, with it, the text; there is something left
/// exactly where the text begins or ends with it.
pub proof fn law_stripped_text_is_put_together(
    s: &str,
    part: &str,
    behind: Option<&str>,
    ahead: Option<&str>,
)
    requires
        call_ensures(strip_prefix, (s, part), behind),
        call_ensures(strip_suffix, (s, part), ahead),
    ensures
        behind matches Some(rest) ==> part@ + rest@ == s@,
        ahead matches Some(rest) ==> rest@ + part@ == s@,
        behind is None ==> forall|rest: Seq<char>| #[trigger] (part@ + rest) != s@,
        ahead is None ==> forall|rest: Seq<char>| #[trigger] (rest + part@) != s@,
{
    if let Some(rest) = behind {
        assert(s@.subrange(0, part@.len() as int) == part@);
        assert(part@ + rest@ =~= s@);
    } else {
        assert forall|rest: Seq<char>| #[trigger] (part@ + rest) != s@ by {
            assert((part@ + rest).subrange(0, part@.len() as int) =~= part@);
        }
    }
    if let Some(rest) = ahead {
        assert(s@.subrange(s@.len() - part@.len(), s@.len() as int) == part@);
        assert(rest@ + part@ =~= s@);
    } else {
        assert forall|rest: Seq<char>| #[trigger] (rest + part@) != s@ by {
            let all = rest + part@;
            assert(all.subrange(all.len() - part@.len(), all.len() as int) =~= part@);
        }
    }
}

/// A part is found in a text exactly where the text is something, the part, and something again.
pub proof fn law_found_part_stands_in_the_text(
    s: &str,
    part: &str,
    found: bool,
    ahead: Seq<char>,
    behind: Seq<char>,
)
    requires
        call_ensures(contains, (s, part), found),
    ensures
        s@ == ahead + part@ + behind ==> found,
        found ==> exists|at: int|
            0 <= at <= s@.len() - part@.len() && #[trigger] s@.subrange(at, at + part@.len())
                == part@,
{
    if s@ == ahead + part@ + behind {
        let at = ahead.len() as int;
        assert(s@.subrange(at, at + part@.len()) =~= part@);
        assert(stands_at(s@, part@, at));
    }
    if found {
        let at = choose|at: int| stands_at(s@, part@, at);
        assert(s@.subrange(at, at + part@.len()) == part@);
    }
}

/// Texts are told the same exactly where they are.
pub proof fn law_same_text_is_equality(a: &str, b: &str, same: bool, swapped: bool)
    requires
        call_ensures(same_text, (a, b), same),
        call_ensures(same_text, (b, a), swapped),
    ensures
        same <==> a@ == b@,
        same == swapped,
{
}

} // verus!
