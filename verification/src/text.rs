//! Text as a sequence of characters: the string operations that the rest of the
//! library is stated over.
use vstd::prelude::*;
use vstd::utf8::{decode_utf8, encode_utf8, is_char_boundary};

verus! {

/// `String::push`: appends one character at the end.
pub assume_specification[ String::push ](s: &mut String, c: char)
    ensures
        final(s)@ == old(s)@.push(c),
;

/// The result of `str::to_lowercase`.
pub uninterp spec fn lowercased(s: Seq<char>) -> Seq<char>;

/// `str::to_lowercase`: the lowercase form of `s`, which depends on the text alone. On
/// text that is all ASCII, `A` to `Z` become `a` to `z` and nothing else changes. What
/// the Unicode tables say of other characters is not stated.
#[verifier::external_body]
pub(crate) fn to_lowercase(s: &str) -> (r: String)
    ensures
        r@ == lowercased(s@),
        is_ascii_text(s@) ==> r@ == ascii_lowered(s@),
{
    s.to_lowercase()
}

// ---------------------------------------------------------------- characters

/// Characters with the Unicode property `White_Space`.
pub open spec fn is_space(c: char) -> bool {
    let n = c as u32;
    ||| 0x09 <= n <= 0x0D
    ||| n == 0x20
    ||| n == 0x85
    ||| n == 0xA0
    ||| n == 0x1680
    ||| 0x2000 <= n <= 0x200A
    ||| n == 0x2028
    ||| n == 0x2029
    ||| n == 0x202F
    ||| n == 0x205F
    ||| n == 0x3000
}

pub fn char_is_space(c: char) -> (r: bool)
    ensures
        r == is_space(c),
{
    let n: u32 = c as u32;
    (0x09 <= n && n <= 0x0D) || n == 0x20 || n == 0x85 || n == 0xA0 || n == 0x1680 || (0x2000 <= n
        && n <= 0x200A) || n == 0x2028 || n == 0x2029 || n == 0x202F || n == 0x205F || n == 0x3000
}

pub open spec fn is_digit(c: char) -> bool {
    '0' as u32 <= c as u32 <= '9' as u32
}

/// The character of a decimal digit.
pub open spec fn digit_char(d: int) -> char {
    (('0' as int) + d) as char
}

pub open spec fn is_ascii_text(s: Seq<char>) -> bool {
    forall|i: int| 0 <= i < s.len() ==> (#[trigger] s[i]) as u32 <= 0x7F
}

pub open spec fn ascii_lower_char(c: char) -> char {
    if 'A' as u32 <= c as u32 <= 'Z' as u32 {
        ((c as int) + 32) as char
    } else {
        c
    }
}

pub open spec fn ascii_lowered(s: Seq<char>) -> Seq<char> {
    Seq::new(s.len(), |i: int| ascii_lower_char(s[i]))
}

pub fn char_to_ascii_lower(c: char) -> (r: char)
    ensures
        r == ascii_lower_char(c),
{
    let n: u32 = c as u32;
    if 65 <= n && n <= 90 {
        (n as u8 + 32) as char
    } else {
        c
    }
}

/// `s` with its ASCII letters in lower case.
pub fn to_ascii_lowercase(s: &str) -> (r: String)
    ensures
        r@ == ascii_lowered(s@),
{
    let v = chars_of(s);
    let mut r = String::new();
    let mut i: usize = 0;
    while i < v.len()
        invariant
            i <= v.len(),
            v@ == s@,
            r@ == ascii_lowered(s@).take(i as int),
        decreases v.len() - i,
    {
        r.push(char_to_ascii_lower(v[i]));
        i += 1;
        assert(ascii_lowered(s@).take(i as int) =~= ascii_lowered(s@).take(i - 1).push(
            ascii_lower_char(v@[i - 1]),
        ));
    }
    assert(ascii_lowered(s@).take(s@.len() as int) =~= ascii_lowered(s@));
    r
}

/// Whether two texts are equal when the case of ASCII letters is ignored.
pub fn eq_ignore_ascii_case(a: &str, b: &str) -> (r: bool)
    ensures
        r == (ascii_lowered(a@) == ascii_lowered(b@)),
{
    let x = chars_of(a);
    let y = chars_of(b);
    if x.len() != y.len() {
        assert(ascii_lowered(a@).len() != ascii_lowered(b@).len());
        return false;
    }
    let mut i: usize = 0;
    while i < x.len()
        invariant
            x@ == a@,
            y@ == b@,
            x.len() == y.len(),
            i <= x.len(),
            forall|j: int|
                0 <= j < i ==> ascii_lower_char(#[trigger] x@[j]) == ascii_lower_char(y@[j]),
        decreases x.len() - i,
    {
        if char_to_ascii_lower(x[i]) != char_to_ascii_lower(y[i]) {
            assert(ascii_lowered(a@)[i as int] != ascii_lowered(b@)[i as int]);
            return false;
        }
        i += 1;
    }
    assert(ascii_lowered(a@) =~= ascii_lowered(b@));
    true
}

// ---------------------------------------------------------- pieces of a text

/// The characters of a text.
pub fn chars_of(s: &str) -> (v: Vec<char>)
    ensures
        v@ == s@,
{
    let mut v: Vec<char> = Vec::new();
    for c in it: s.chars()
        invariant
            v@ == it.seq().take(it.index() as int),
            it.seq() == s@,
    {
        v.push(c);
    }
    v
}

/// The text made of the characters `v[from..to]`.
pub fn text_of(v: &Vec<char>, from: usize, to: usize) -> (r: String)
    requires
        from <= to <= v.len(),
    ensures
        r@ == v@.subrange(from as int, to as int),
{
    let mut r = String::new();
    let mut i: usize = from;
    while i < to
        invariant
            from <= i <= to <= v.len(),
            r@ == v@.subrange(from as int, i as int),
        decreases to - i,
    {
        r.push(v[i]);
        i += 1;
        assert(v@.subrange(from as int, i as int) =~= v@.subrange(from as int, i - 1).push(
            v@[i - 1],
        ));
    }
    r
}

/// Whether two texts are the same.
pub fn same_text(a: &str, b: &str) -> (r: bool)
    ensures
        r == (a@ == b@),
{
    a.to_owned() == b.to_owned()
}

/// `a` followed by `b`.
pub fn concat(a: &str, b: &str) -> (r: String)
    ensures
        r@ == a@ + b@,
{
    let mut r = a.to_owned();
    r.append(b);
    r
}

/// The first `n` characters of `s`, or all of it where it is shorter.
pub open spec fn prefix_chars(s: Seq<char>, n: int) -> Seq<char> {
    if n < s.len() {
        s.take(n)
    } else {
        s
    }
}

pub fn take_chars(s: &str, n: usize) -> (r: String)
    ensures
        r@ == prefix_chars(s@, n as int),
{
    let v = chars_of(s);
    if n < v.len() {
        assert(v@.subrange(0, n as int) =~= s@.take(n as int));
        text_of(&v, 0, n)
    } else {
        s.to_owned()
    }
}

pub open spec fn trimmed_start(s: Seq<char>) -> Seq<char>
    decreases s.len(),
{
    if s.len() > 0 && is_space(s[0]) {
        trimmed_start(s.drop_first())
    } else {
        s
    }
}

pub open spec fn trimmed_end(s: Seq<char>) -> Seq<char>
    decreases s.len(),
{
    if s.len() > 0 && is_space(s.last()) {
        trimmed_end(s.drop_last())
    } else {
        s
    }
}

/// `s` without white space at either end.
pub open spec fn trimmed(s: Seq<char>) -> Seq<char> {
    trimmed_end(trimmed_start(s))
}

/// Nothing but white space.
pub open spec fn is_blank_text(s: Seq<char>) -> bool {
    trimmed(s).len() == 0
}

fn skip_space(v: &Vec<char>) -> (a: usize)
    ensures
        a <= v.len(),
        trimmed_start(v@) == v@.subrange(a as int, v@.len() as int),
{
    let mut a: usize = 0;
    assert(v@.subrange(0, v@.len() as int) =~= v@);
    while a < v.len() && char_is_space(v[a])
        invariant
            a <= v.len(),
            trimmed_start(v@) == trimmed_start(v@.subrange(a as int, v@.len() as int)),
        decreases v.len() - a,
    {
        assert(v@.subrange(a as int, v@.len() as int).drop_first() =~= v@.subrange(
            a + 1,
            v@.len() as int,
        ));
        a += 1;
    }
    a
}

fn skip_space_back(v: &Vec<char>, a: usize) -> (b: usize)
    requires
        a <= v.len(),
    ensures
        a <= b <= v.len(),
        trimmed_end(v@.subrange(a as int, v@.len() as int)) == v@.subrange(a as int, b as int),
{
    let mut b: usize = v.len();
    while b > a && char_is_space(v[b - 1])
        invariant
            a <= b <= v.len(),
            trimmed_end(v@.subrange(a as int, v@.len() as int)) == trimmed_end(
                v@.subrange(a as int, b as int),
            ),
        decreases b,
    {
        assert(v@.subrange(a as int, b as int).drop_last() =~= v@.subrange(a as int, b - 1));
        b -= 1;
    }
    b
}

pub fn trim(s: &str) -> (r: String)
    ensures
        r@ == trimmed(s@),
{
    let v = chars_of(s);
    let a = skip_space(&v);
    let b = skip_space_back(&v, a);
    text_of(&v, a, b)
}

pub fn trim_start(s: &str) -> (r: String)
    ensures
        r@ == trimmed_start(s@),
{
    let v = chars_of(s);
    let a = skip_space(&v);
    text_of(&v, a, v.len())
}

pub fn trim_end(s: &str) -> (r: String)
    ensures
        r@ == trimmed_end(s@),
{
    let v = chars_of(s);
    let b = skip_space_back(&v, 0);
    assert(v@.subrange(0, v@.len() as int) =~= v@);
    text_of(&v, 0, b)
}

pub fn is_blank(s: &str) -> (r: bool)
    ensures
        r == is_blank_text(s@),
{
    trim(s).as_str().is_empty()
}

/// `s` without the run of `c` at its end.
pub open spec fn trimmed_end_of(s: Seq<char>, c: char) -> Seq<char>
    decreases s.len(),
{
    if s.len() > 0 && s.last() == c {
        trimmed_end_of(s.drop_last(), c)
    } else {
        s
    }
}

/// `s` without the run of `c` at its start.
pub open spec fn trimmed_start_of(s: Seq<char>, c: char) -> Seq<char>
    decreases s.len(),
{
    if s.len() > 0 && s[0] == c {
        trimmed_start_of(s.drop_first(), c)
    } else {
        s
    }
}

pub fn trim_end_matches(s: &str, c: char) -> (r: String)
    ensures
        r@ == trimmed_end_of(s@, c),
{
    let v = chars_of(s);
    let mut b: usize = v.len();
    assert(v@.subrange(0, b as int) =~= s@);
    while b > 0 && v[b - 1] == c
        invariant
            b <= v.len(),
            trimmed_end_of(s@, c) == trimmed_end_of(v@.subrange(0, b as int), c),
        decreases b,
    {
        assert(v@.subrange(0, b as int).drop_last() =~= v@.subrange(0, b - 1));
        b -= 1;
    }
    text_of(&v, 0, b)
}

pub fn trim_start_matches(s: &str, c: char) -> (r: String)
    ensures
        r@ == trimmed_start_of(s@, c),
{
    let v = chars_of(s);
    let mut a: usize = 0;
    assert(v@.subrange(0, v@.len() as int) =~= s@);
    while a < v.len() && v[a] == c
        invariant
            a <= v.len(),
            trimmed_start_of(s@, c) == trimmed_start_of(v@.subrange(a as int, v@.len() as int), c),
        decreases v.len() - a,
    {
        assert(v@.subrange(a as int, v@.len() as int).drop_first() =~= v@.subrange(
            a + 1,
            v@.len() as int,
        ));
        a += 1;
    }
    text_of(&v, a, v.len())
}

/// Whether `s` begins with `p`.
pub open spec fn begins_with(s: Seq<char>, p: Seq<char>) -> bool {
    p.len() <= s.len() && s.take(p.len() as int) == p
}

pub fn starts_with(s: &str, p: &str) -> (r: bool)
    ensures
        r == begins_with(s@, p@),
{
    let v = chars_of(s);
    let w = chars_of(p);
    if w.len() > v.len() {
        return false;
    }
    let mut i: usize = 0;
    while i < w.len()
        invariant
            v@ == s@,
            w@ == p@,
            i <= w.len() <= v.len(),
            forall|j: int| 0 <= j < i ==> v@[j] == #[trigger] w@[j],
        decreases w.len() - i,
    {
        if v[i] != w[i] {
            assert(s@.take(p@.len() as int)[i as int] != p@[i as int]);
            return false;
        }
        i += 1;
    }
    assert(s@.take(p@.len() as int) =~= p@);
    true
}

/// Whether `s` ends with `p`.
pub open spec fn ends_in(s: Seq<char>, p: Seq<char>) -> bool {
    p.len() <= s.len() && s.skip(s.len() - p.len()) == p
}

pub fn ends_with(s: &str, p: &str) -> (r: bool)
    ensures
        r == ends_in(s@, p@),
{
    let v = chars_of(s);
    let w = chars_of(p);
    if w.len() > v.len() {
        return false;
    }
    let start: usize = v.len() - w.len();
    let tail = text_of(&v, start, v.len());
    assert(v@.subrange(start as int, v@.len() as int) =~= s@.skip(s@.len() - p@.len()));
    same_text(&tail, p)
}

/// What follows the prefix `p`, where `s` begins with it.
pub open spec fn stripped(s: Seq<char>, p: Seq<char>) -> Option<Seq<char>> {
    if begins_with(s, p) {
        Some(s.skip(p.len() as int))
    } else {
        None
    }
}

pub fn strip_prefix(s: &str, p: &str) -> (r: Option<String>)
    ensures
        r.deep_view() == stripped(s@, p@),
{
    if starts_with(s, p) {
        let v = chars_of(s);
        let n: usize = chars_of(p).len();
        assert(v@.subrange(n as int, v@.len() as int) =~= s@.skip(n as int));
        Some(text_of(&v, n, v.len()))
    } else {
        None
    }
}

/// `s` without the copies of `p` at its start. An empty `p` takes nothing away.
pub open spec fn without_leading(s: Seq<char>, p: Seq<char>) -> Seq<char>
    decreases s.len(),
{
    if p.len() > 0 && begins_with(s, p) {
        without_leading(s.skip(p.len() as int), p)
    } else {
        s
    }
}

/// `s` without the copies of `p` at its start.
pub fn trim_start_text(s: &str, p: &str) -> (r: String)
    requires
        p@.len() > 0,
    ensures
        r@ == without_leading(s@, p@),
{
    let mut rest = s.to_owned();
    loop
        invariant_except_break
            without_leading(s@, p@) == without_leading(rest@, p@),
            p@.len() > 0,
        ensures
            rest@ == without_leading(s@, p@),
        decreases rest@.len(),
    {
        match strip_prefix(&rest, p) {
            Some(tail) => {
                rest = tail;
            },
            None => {
                break;
            },
        }
    }
    rest
}

/// `s` without the occurrences of `p`, found from the left.
pub open spec fn without_all(s: Seq<char>, p: Seq<char>) -> Seq<char>
    decreases s.len(),
{
    if s.len() == 0 || p.len() == 0 {
        s
    } else if begins_with(s, p) {
        without_all(s.skip(p.len() as int), p)
    } else {
        seq![s[0]] + without_all(s.drop_first(), p)
    }
}

/// `s` without the occurrences of `p`.
pub fn remove_all(s: &str, p: &str) -> (r: String)
    requires
        p@.len() > 0,
    ensures
        r@ == without_all(s@, p@),
{
    let v = chars_of(s);
    let w = chars_of(p);
    let mut r = String::new();
    let mut i: usize = 0;
    assert(v@.skip(0) =~= s@);
    assert(r@ + without_all(v@.skip(0), p@) =~= without_all(s@, p@));
    while i < v.len()
        invariant
            i <= v.len(),
            v@ == s@,
            w@ == p@,
            w.len() > 0,
            r@ + without_all(v@.skip(i as int), p@) == without_all(s@, p@),
        decreases v.len() - i,
    {
        let ghost rest = v@.skip(i as int);
        if w.len() <= v.len() - i && matches_at(&v, &w, i) {
            assert(v@.subrange(i as int, i + w@.len()) =~= rest.take(w@.len() as int));
            assert(rest.skip(w@.len() as int) =~= v@.skip(i + w@.len()));
            i += w.len();
        } else {
            assert(!begins_with(rest, p@)) by {
                if begins_with(rest, p@) {
                    assert(v@.subrange(i as int, i + w@.len()) =~= rest.take(w@.len() as int));
                }
            }
            assert(rest.drop_first() =~= v@.skip(i + 1));
            let ghost before = r@;
            r.push(v[i]);
            assert(r@ + without_all(v@.skip(i + 1), p@) =~= before + (seq![rest[0]] + without_all(
                rest.drop_first(),
                p@,
            )));
            i += 1;
        }
    }
    assert(v@.skip(v@.len() as int) =~= seq![]);
    assert(r@ + without_all(seq![], p@) =~= r@);
    r
}

/// Whether `p` stands somewhere in `s`.
pub open spec fn holds_text(s: Seq<char>, p: Seq<char>) -> bool {
    exists|i: int| 0 <= i <= s.len() - p.len() && #[trigger] s.subrange(i, i + p.len()) == p
}

fn matches_at(v: &Vec<char>, w: &Vec<char>, at: usize) -> (r: bool)
    requires
        at + w.len() <= v.len(),
    ensures
        r == (v@.subrange(at as int, at + w@.len()) == w@),
{
    let mut i: usize = 0;
    while i < w.len()
        invariant
            i <= w.len(),
            at + w.len() <= v.len(),
            forall|j: int| 0 <= j < i ==> v@[at + j] == #[trigger] w@[j],
        decreases w.len() - i,
    {
        if v[at + i] != w[i] {
            assert(v@.subrange(at as int, at + w@.len())[i as int] != w@[i as int]);
            return false;
        }
        i += 1;
    }
    assert(v@.subrange(at as int, at + w@.len()) =~= w@);
    true
}

pub fn contains(s: &str, p: &str) -> (r: bool)
    ensures
        r == holds_text(s@, p@),
{
    let v = chars_of(s);
    let w = chars_of(p);
    if w.len() > v.len() {
        return false;
    }
    let last: usize = v.len() - w.len();
    let mut i: usize = 0;
    while i <= last
        invariant
            v@ == s@,
            w@ == p@,
            last == v.len() - w.len(),
            w.len() <= v.len(),
            i <= last + 1,
            forall|j: int| 0 <= j < i ==> #[trigger] s@.subrange(j, j + p@.len()) != p@,
        decreases last + 1 - i,
    {
        if matches_at(&v, &w, i) {
            return true;
        }
        if i == last {
            return false;
        }
        i += 1;
    }
    false
}

/// The pieces of `s` between the occurrences of `c`: one more than there are occurrences.
pub open spec fn split_on(s: Seq<char>, c: char) -> Seq<Seq<char>>
    decreases s.len(),
{
    if s.len() == 0 {
        seq![Seq::empty()]
    } else {
        let p = split_on(s.drop_last(), c);
        if s.last() == c {
            p.push(Seq::empty())
        } else {
            p.drop_last().push(p.last().push(s.last()))
        }
    }
}

pub proof fn lemma_split_on_nonempty(s: Seq<char>, c: char)
    ensures
        split_on(s, c).len() >= 1,
    decreases s.len(),
{
    if s.len() > 0 {
        lemma_split_on_nonempty(s.drop_last(), c);
    }
}

pub fn split_char(s: &str, c: char) -> (r: Vec<String>)
    ensures
        r.deep_view() == split_on(s@, c),
        r.len() >= 1,
{
    let v = chars_of(s);
    let mut r: Vec<String> = Vec::new();
    let mut cur = String::new();
    let mut i: usize = 0;
    assert(v@.take(0) =~= Seq::empty());
    assert(r.deep_view().push(cur@) =~= split_on(v@.take(0), c));
    while i < v.len()
        invariant
            i <= v.len(),
            r.deep_view().push(cur@) == split_on(v@.take(i as int), c),
        decreases v.len() - i,
    {
        let ghost before = r.deep_view();
        let ghost cur0 = cur@;
        let ghost p = split_on(v@.take(i as int), c);
        assert(v@.take(i + 1).drop_last() =~= v@.take(i as int));
        assert(p.drop_last() =~= before);
        assert(p.last() == cur0);
        if v[i] == c {
            r.push(cur);
            cur = String::new();
            assert(r.deep_view() =~= before.push(cur0));
        } else {
            cur.push(v[i]);
        }
        i += 1;
        assert(r.deep_view().push(cur@) =~= split_on(v@.take(i as int), c));
    }
    assert(v@.take(v@.len() as int) =~= s@);
    let ghost before = r.deep_view();
    let ghost cur0 = cur@;
    r.push(cur);
    assert(r.deep_view() =~= before.push(cur0));
    r
}

/// What stands before and behind the first `c`.
pub open spec fn parted(s: Seq<char>, c: char) -> Option<(Seq<char>, Seq<char>)>
    decreases s.len(),
{
    if s.len() == 0 {
        None
    } else if s[0] == c {
        Some((seq![], s.drop_first()))
    } else {
        match parted(s.drop_first(), c) {
            Some((a, b)) => Some((seq![s[0]] + a, b)),
            None => None,
        }
    }
}

/// Parts a text at the first `c`.
pub fn split_once(s: &str, c: char) -> (r: Option<(String, String)>)
    ensures
        match r {
            Some((a, b)) => parted(s@, c) == Some((a@, b@)),
            None => parted(s@, c) is None,
        },
{
    let v = chars_of(s);
    let mut i: usize = 0;
    assert(v@.skip(0) =~= s@);
    assert(parted(s@, c) == with_front(v@.take(0), parted(v@.skip(0), c))) by {
        if parted(s@, c) is Some {
            let (a, b) = parted(s@, c)->0;
            assert(v@.take(0) + a =~= a);
        }
    }
    while i < v.len()
        invariant
            i <= v.len(),
            v@ == s@,
            parted(s@, c) == with_front(v@.take(i as int), parted(v@.skip(i as int), c)),
        decreases v.len() - i,
    {
        let ghost rest = v@.skip(i as int);
        assert(rest.drop_first() =~= v@.skip(i + 1));
        if v[i] == c {
            assert(v@.subrange(0, i as int) =~= v@.take(i as int) + seq![]);
            assert(v@.subrange(i + 1, v@.len() as int) =~= rest.drop_first());
            return Some((text_of(&v, 0, i), text_of(&v, i + 1, v.len())));
        }
        assert(with_front(v@.take(i as int), parted(rest, c)) == with_front(
            v@.take(i + 1),
            parted(rest.drop_first(), c),
        )) by {
            if parted(rest.drop_first(), c) is Some {
                let (a, b) = parted(rest.drop_first(), c)->0;
                assert(v@.take(i as int) + (seq![rest[0]] + a) =~= v@.take(i + 1) + a);
            }
        }
        i += 1;
    }
    None
}

/// A pair with `front` before its first text.
spec fn with_front(front: Seq<char>, p: Option<(Seq<char>, Seq<char>)>) -> Option<
    (Seq<char>, Seq<char>),
> {
    match p {
        Some((a, b)) => Some((front + a, b)),
        None => None,
    }
}

/// `s` without one carriage return at its end.
pub open spec fn without_cr(s: Seq<char>) -> Seq<char> {
    if s.len() > 0 && s.last() == '\r' {
        s.drop_last()
    } else {
        s
    }
}

/// The lines of `s`, each without its line end (`\n` or `\r\n`). Text after the last line
/// end is a line of its own, if there is any.
pub open spec fn lines_of(s: Seq<char>) -> Seq<Seq<char>> {
    let p = split_on(s, '\n');
    let n = p.len();
    Seq::new(
        if p.last().len() == 0 {
            (n - 1) as nat
        } else {
            n
        },
        |i: int|
            if i < n - 1 {
                without_cr(p[i])
            } else {
                p[i]
            },
    )
}

fn drop_cr(s: &str) -> (r: String)
    ensures
        r@ == without_cr(s@),
{
    let v = chars_of(s);
    let n: usize = v.len();
    if n > 0 && v[n - 1] == '\r' {
        assert(v@.subrange(0, n - 1) =~= s@.drop_last());
        text_of(&v, 0, n - 1)
    } else {
        s.to_owned()
    }
}

pub fn split_lines(s: &str) -> (r: Vec<String>)
    ensures
        r.deep_view() == lines_of(s@),
{
    let p = split_char(s, '\n');
    let n: usize = p.len();
    let mut r: Vec<String> = Vec::new();
    let mut i: usize = 0;
    while i < n - 1
        invariant
            p.deep_view() == split_on(s@, '\n'),
            n == p.len(),
            n >= 1,
            i <= n - 1,
            r.len() == i,
            forall|j: int|
                0 <= j < i ==> (#[trigger] r@[j])@ == without_cr(split_on(s@, '\n')[j]),
        decreases n - i,
    {
        assert(p.deep_view()[i as int] == p@[i as int]@);
        r.push(drop_cr(&p[i]));
        i += 1;
    }
    assert(p.deep_view()[n - 1] == p@[n - 1]@);
    if !p[n - 1].as_str().is_empty() {
        r.push(p[n - 1].clone());
    }
    assert(r.deep_view() =~= lines_of(s@));
    r
}

/// The runs of characters of `s` between white space; the last one may be empty.
pub open spec fn split_on_space(s: Seq<char>) -> Seq<Seq<char>>
    decreases s.len(),
{
    if s.len() == 0 {
        seq![Seq::empty()]
    } else {
        let p = split_on_space(s.drop_last());
        if is_space(s.last()) {
            p.push(Seq::empty())
        } else {
            p.drop_last().push(p.last().push(s.last()))
        }
    }
}

/// The words of `s`: the non-empty runs of characters between white space.
pub open spec fn words_of(s: Seq<char>) -> Seq<Seq<char>> {
    split_on_space(s).filter(|w: Seq<char>| w.len() > 0)
}

pub proof fn lemma_filter_push<T>(s: Seq<T>, x: T, f: spec_fn(T) -> bool)
    ensures
        s.push(x).filter(f) == (if f(x) {
            s.filter(f).push(x)
        } else {
            s.filter(f)
        }),
{
    reveal(Seq::filter);
    assert(s.push(x).drop_last() =~= s);
}

pub fn split_words(s: &str) -> (r: Vec<String>)
    ensures
        r.deep_view() == words_of(s@),
{
    let v = chars_of(s);
    let mut r: Vec<String> = Vec::new();
    let mut cur = String::new();
    let mut i: usize = 0;
    let ghost f = |w: Seq<char>| w.len() > 0;
    let ghost mut done: Seq<Seq<char>> = Seq::empty();
    proof {
        reveal(Seq::filter);
        assert(v@.take(0) =~= Seq::empty());
        assert(done.push(cur@) =~= split_on_space(v@.take(0)));
        assert(done.filter(f) =~= r.deep_view());
    }
    while i < v.len()
        invariant
            i <= v.len(),
            done.push(cur@) == split_on_space(v@.take(i as int)),
            f == (|w: Seq<char>| w.len() > 0),
            r.deep_view() == done.filter(f),
        decreases v.len() - i,
    {
        let ghost before = r.deep_view();
        let ghost cur0 = cur@;
        let ghost p = split_on_space(v@.take(i as int));
        assert(v@.take(i + 1).drop_last() =~= v@.take(i as int));
        assert(p.drop_last() =~= done);
        assert(p.last() == cur0);
        if char_is_space(v[i]) {
            proof {
                lemma_filter_push(done, cur0, f);
                done = done.push(cur0);
            }
            if !cur.as_str().is_empty() {
                r.push(cur);
                assert(r.deep_view() =~= before.push(cur0));
            }
            cur = String::new();
        } else {
            cur.push(v[i]);
        }
        i += 1;
        assert(done.push(cur@) =~= split_on_space(v@.take(i as int)));
    }
    assert(v@.take(v@.len() as int) =~= s@);
    let ghost before = r.deep_view();
    let ghost cur0 = cur@;
    proof {
        lemma_filter_push(done, cur0, f);
    }
    if !cur.as_str().is_empty() {
        r.push(cur);
        assert(r.deep_view() =~= before.push(cur0));
    }
    r
}

/// The parts one after the other, with `sep` between two neighbours.
pub open spec fn joined(parts: Seq<Seq<char>>, sep: Seq<char>) -> Seq<char>
    decreases parts.len(),
{
    if parts.len() == 0 {
        Seq::empty()
    } else if parts.len() == 1 {
        parts[0]
    } else {
        joined(parts.drop_last(), sep) + sep + parts.last()
    }
}

pub fn join(parts: &Vec<String>, sep: &str) -> (r: String)
    ensures
        r@ == joined(parts.deep_view(), sep@),
{
    let mut r = String::new();
    let mut i: usize = 0;
    while i < parts.len()
        invariant
            i <= parts.len(),
            r@ == joined(parts.deep_view().take(i as int), sep@),
        decreases parts.len() - i,
    {
        let ghost d = parts.deep_view();
        assert(d.take(i + 1).drop_last() =~= d.take(i as int));
        assert(d.take(i + 1).last() == parts@[i as int]@);
        if i > 0 {
            r.append(sep);
        }
        r.append(&parts[i]);
        i += 1;
        if i == 1 {
            assert(r@ =~= parts@[0]@);
        }
    }
    assert(parts.deep_view().take(parts@.len() as int) =~= parts.deep_view());
    r
}

/// `s`, `n` times.
pub open spec fn repeated(s: Seq<char>, n: nat) -> Seq<char>
    decreases n,
{
    if n == 0 {
        Seq::empty()
    } else {
        repeated(s, (n - 1) as nat) + s
    }
}

pub fn repeat(s: &str, n: usize) -> (r: String)
    ensures
        r@ == repeated(s@, n as nat),
{
    let mut r = String::new();
    let mut i: usize = 0;
    while i < n
        invariant
            i <= n,
            r@ == repeated(s@, i as nat),
        decreases n - i,
    {
        r.append(s);
        i += 1;
    }
    r
}

/// `s` with blanks behind it, up to `n` characters.
pub open spec fn padded_right(s: Seq<char>, n: int) -> Seq<char> {
    if s.len() < n {
        s + repeated(" "@, (n - s.len()) as nat)
    } else {
        s
    }
}

pub fn pad_right(s: &str, n: usize) -> (r: String)
    ensures
        r@ == padded_right(s@, n as int),
{
    let len: usize = chars_of(s).len();
    if len < n {
        concat(s, &repeat(" ", n - len))
    } else {
        s.to_owned()
    }
}

/// `s` with blanks before it, up to `n` characters.
pub open spec fn padded_left(s: Seq<char>, n: int) -> Seq<char> {
    if s.len() < n {
        repeated(" "@, (n - s.len()) as nat) + s
    } else {
        s
    }
}

pub fn pad_left(s: &str, n: usize) -> (r: String)
    ensures
        r@ == padded_left(s@, n as int),
{
    let len: usize = chars_of(s).len();
    if len < n {
        concat(&repeat(" ", n - len), s)
    } else {
        s.to_owned()
    }
}

/// `s` where it has at most `n` characters, else its start and an ellipsis, `n` characters
/// in all.
pub open spec fn shortened(s: Seq<char>, n: int) -> Seq<char> {
    if s.len() <= n {
        s
    } else {
        s.take(if n > 0 {
            n - 1
        } else {
            0
        }).push('…')
    }
}

pub fn truncate(s: &str, n: usize) -> (r: String)
    ensures
        r@ == shortened(s@, n as int),
{
    let v = chars_of(s);
    if v.len() <= n {
        return s.to_owned();
    }
    let keep: usize = if n > 0 {
        n - 1
    } else {
        0
    };
    let mut r = text_of(&v, 0, keep);
    assert(v@.subrange(0, keep as int) =~= s@.take(keep as int));
    r.push('…');
    r
}

/// What was shortened is no longer than was asked, unless nothing at all was.
pub proof fn shortened_fits(s: Seq<char>, n: int)
    requires
        n >= 1,
    ensures
        shortened(s, n).len() <= n,
        s.len() <= n ==> shortened(s, n) == s,
{
}

// -------------------------------------------------------------------- numbers

/// The decimal digits of `n`.
pub open spec fn decimal(n: nat) -> Seq<char>
    decreases n,
{
    if n < 10 {
        seq![digit_char(n as int)]
    } else {
        decimal(n / 10).push(digit_char((n % 10) as int))
    }
}

pub fn decimal_text(n: u64) -> (r: String)
    ensures
        r@ == decimal(n as nat),
    decreases n,
{
    if n < 10 {
        let mut r = String::new();
        r.push((48u8 + n as u8) as char);
        assert(r@ =~= decimal(n as nat));
        r
    } else {
        let mut r = decimal_text(n / 10);
        r.push((48u8 + (n % 10) as u8) as char);
        r
    }
}

pub open spec fn all_digits(s: Seq<char>) -> bool {
    forall|i: int| 0 <= i < s.len() ==> is_digit(#[trigger] s[i])
}

/// The number that a run of decimal digits stands for.
pub open spec fn digits_value(s: Seq<char>) -> nat
    decreases s.len(),
{
    if s.len() == 0 {
        0
    } else {
        digits_value(s.drop_last()) * 10 + (s.last() as u32 - '0' as u32) as nat
    }
}

/// A number of at most `max`, written in decimal with an optional `+` before it.
pub open spec fn parsed_unsigned(s: Seq<char>, max: nat) -> Option<nat> {
    let body = if s.len() > 0 && s[0] == '+' {
        s.drop_first()
    } else {
        s
    };
    if body.len() > 0 && all_digits(body) && digits_value(body) <= max {
        Some(digits_value(body))
    } else {
        None
    }
}

/// The digits of a number stand for that number.
pub proof fn lemma_decimal_value(n: nat)
    ensures
        decimal(n).len() > 0,
        all_digits(decimal(n)),
        digits_value(decimal(n)) == n,
    decreases n,
{
    if n < 10 {
        let d = decimal(n);
        assert(d.drop_last() =~= Seq::<char>::empty());
        assert(digits_value(d.drop_last()) == 0);
        assert(d.last() as u32 == '0' as u32 + n);
    } else {
        let front = decimal(n / 10);
        lemma_decimal_value(n / 10);
        let d = decimal(n);
        assert(d.drop_last() =~= front);
        assert(d.last() as u32 == '0' as u32 + n % 10);
        assert forall|i: int| 0 <= i < d.len() implies is_digit(#[trigger] d[i]) by {
            if i < front.len() {
                assert(d[i] == front[i]);
            }
        }
    }
}

/// A number that was written in decimal reads back.
pub proof fn decimal_reads_back(n: nat, max: nat)
    requires
        n <= max,
    ensures
        parsed_unsigned(decimal(n), max) == Some(n),
{
    lemma_decimal_value(n);
    assert(is_digit(decimal(n)[0]));
}

fn parse_digits(v: &Vec<char>, from: usize, max: u64) -> (r: Option<u64>)
    requires
        from <= v.len(),
    ensures
        ({
            let body = v@.skip(from as int);
            match r {
                Some(n) => body.len() > 0 && all_digits(body) && digits_value(body) == n && n
                    <= max,
                None => body.len() == 0 || !all_digits(body) || digits_value(body) > max,
            }
        }),
{
    if from == v.len() {
        return None;
    }
    let ghost body = v@.skip(from as int);
    let mut acc: u64 = 0;
    let mut over: bool = false;
    let mut i: usize = from;
    assert(body.take(0) =~= Seq::empty());
    while i < v.len()
        invariant
            from <= i <= v.len(),
            body == v@.skip(from as int),
            all_digits(body.take(i - from)),
            over ==> digits_value(body.take(i - from)) > max,
            !over ==> digits_value(body.take(i - from)) == acc && acc <= max,
        decreases v.len() - i,
    {
        let c: u32 = v[i] as u32;
        if c < 48 || c > 57 {
            assert(body[i - from] == v@[i as int]);
            return None;
        }
        let d: u64 = (c - 48) as u64;
        assert(body.take(i + 1 - from).drop_last() =~= body.take(i - from));
        assert(body.take(i + 1 - from).last() == v@[i as int]);
        assert forall|j: int| 0 <= j < i + 1 - from implies is_digit(
            #[trigger] body.take(i + 1 - from)[j],
        ) by {
            if j < i - from {
                assert(body.take(i - from)[j] == body.take(i + 1 - from)[j]);
            }
        }
        assert(digits_value(body.take(i + 1 - from)) == digits_value(body.take(i - from)) * 10 + d);
        if !over {
            if d > max || acc > (max - d) / 10 {
                over = true;
            } else {
                acc = acc * 10 + d;
            }
        }
        i += 1;
    }
    assert(body.take(body.len() as int) =~= body);
    if over {
        None
    } else {
        Some(acc)
    }
}

/// `str::parse` into an unsigned integer whose largest value is `max`.
pub fn parse_unsigned(s: &str, max: u64) -> (r: Option<u64>)
    ensures
        match r {
            Some(n) => parsed_unsigned(s@, max as nat) == Some(n as nat) && n <= max,
            None => parsed_unsigned(s@, max as nat) is None,
        },
{
    let v = chars_of(s);
    if v.len() > 0 && v[0] == '+' {
        assert(v@.skip(1) =~= s@.drop_first());
        parse_digits(&v, 1, max)
    } else {
        assert(v@.skip(0) =~= s@);
        parse_digits(&v, 0, max)
    }
}

/// A number that fits in 64 bits with a sign, written in decimal after an optional sign.
pub open spec fn parsed_i64(s: Seq<char>) -> Option<int> {
    if s.len() > 0 && s[0] == '-' {
        let body = s.drop_first();
        if body.len() > 0 && all_digits(body) && digits_value(body) <= 0x8000_0000_0000_0000 {
            Some(-(digits_value(body) as int))
        } else {
            None
        }
    } else {
        match parsed_unsigned(s, 0x7FFF_FFFF_FFFF_FFFF) {
            Some(n) => Some(n as int),
            None => None,
        }
    }
}

pub fn parse_i64(s: &str) -> (r: Option<i64>)
    ensures
        match r {
            Some(n) => parsed_i64(s@) == Some(n as int),
            None => parsed_i64(s@) is None,
        },
{
    let v = chars_of(s);
    if v.len() > 0 && v[0] == '-' {
        assert(v@.skip(1) =~= s@.drop_first());
        match parse_digits(&v, 1, 0x8000_0000_0000_0000) {
            Some(n) => {
                if n == 0x8000_0000_0000_0000 {
                    Some(i64::MIN)
                } else {
                    Some(-(n as i64))
                }
            },
            None => None,
        }
    } else {
        match parse_unsigned(s, 0x7FFF_FFFF_FFFF_FFFF) {
            Some(n) => Some(n as i64),
            None => None,
        }
    }
}

// ---------------------------------------------------------------------- order

/// The order of texts by code points, which is also their order by UTF-8 bytes.
pub open spec fn text_le(a: Seq<char>, b: Seq<char>) -> bool
    decreases a.len(),
{
    if a.len() == 0 {
        true
    } else if b.len() == 0 {
        false
    } else if a[0] as u32 != b[0] as u32 {
        (a[0] as u32) < (b[0] as u32)
    } else {
        text_le(a.drop_first(), b.drop_first())
    }
}

proof fn lemma_text_le_total(a: Seq<char>, b: Seq<char>)
    ensures
        text_le(a, b) || text_le(b, a),
    decreases a.len(),
{
    if a.len() > 0 && b.len() > 0 && a[0] as u32 == b[0] as u32 {
        lemma_text_le_total(a.drop_first(), b.drop_first());
    }
}

proof fn lemma_text_le_transitive(a: Seq<char>, b: Seq<char>, c: Seq<char>)
    requires
        text_le(a, b),
        text_le(b, c),
    ensures
        text_le(a, c),
    decreases a.len(),
{
    if a.len() > 0 && a[0] as u32 == b[0] as u32 && b[0] as u32 == c[0] as u32 {
        lemma_text_le_transitive(a.drop_first(), b.drop_first(), c.drop_first());
    }
}

/// Texts can always be compared, and their order is transitive.
pub proof fn lemma_text_order()
    ensures
        forall|a: Seq<char>, b: Seq<char>| #[trigger] text_le(a, b) || text_le(b, a),
        forall|a: Seq<char>, b: Seq<char>, c: Seq<char>| #[trigger]
            text_le(a, b) && #[trigger] text_le(b, c) ==> text_le(a, c),
{
    assert forall|a: Seq<char>, b: Seq<char>| #[trigger] text_le(a, b) || text_le(b, a) by {
        lemma_text_le_total(a, b);
    }
    assert forall|a: Seq<char>, b: Seq<char>, c: Seq<char>| #[trigger]
        text_le(a, b) && #[trigger] text_le(b, c) implies text_le(a, c) by {
        lemma_text_le_transitive(a, b, c);
    }
}

pub fn text_at_most(a: &str, b: &str) -> (r: bool)
    ensures
        r == text_le(a@, b@),
{
    let x = chars_of(a);
    let y = chars_of(b);
    let mut i: usize = 0;
    assert(a@.skip(0) =~= a@);
    assert(b@.skip(0) =~= b@);
    while i < x.len() && i < y.len() && x[i] as u32 == y[i] as u32
        invariant
            x@ == a@,
            y@ == b@,
            i <= x.len(),
            i <= y.len(),
            text_le(a@, b@) == text_le(a@.skip(i as int), b@.skip(i as int)),
        decreases x.len() - i,
    {
        assert(a@.skip(i as int).drop_first() =~= a@.skip(i + 1));
        assert(b@.skip(i as int).drop_first() =~= b@.skip(i + 1));
        i += 1;
    }
    if i == x.len() {
        true
    } else if i == y.len() {
        false
    } else {
        (x[i] as u32) < (y[i] as u32)
    }
}

// ----------------------------------------------------------------------- bytes

/// The bytes that a text takes.
pub open spec fn byte_len(s: Seq<char>) -> nat {
    encode_utf8(s).len()
}

/// A text can be cut behind its first `n` bytes.
pub open spec fn cuts_at(s: Seq<char>, n: int) -> bool {
    is_char_boundary(encode_utf8(s), n)
}

/// The first `n` bytes of a text.
pub open spec fn head_bytes(s: Seq<char>, n: int) -> Seq<char> {
    decode_utf8(encode_utf8(s).subrange(0, n))
}

/// A text without its first `n` bytes.
pub open spec fn tail_bytes(s: Seq<char>, n: int) -> Seq<char> {
    decode_utf8(encode_utf8(s).subrange(n, byte_len(s) as int))
}

pub fn byte_length(s: &str) -> (r: usize)
    ensures
        r == byte_len(s@),
{
    s.as_bytes().len()
}

pub fn can_cut(s: &str, n: usize) -> (r: bool)
    ensures
        r == cuts_at(s@, n as int),
{
    s.is_char_boundary(n)
}

pub fn first_bytes(s: &str, n: usize) -> (r: String)
    requires
        cuts_at(s@, n as int),
    ensures
        r@ == head_bytes(s@, n as int),
{
    let (a, _b) = s.split_at(n);
    proof {
        vstd::utf8::encode_utf8_decode_utf8(a@);
    }
    a.to_owned()
}

pub fn bytes_from(s: &str, n: usize) -> (r: String)
    requires
        cuts_at(s@, n as int),
    ensures
        r@ == tail_bytes(s@, n as int),
{
    let (_a, b) = s.split_at(n);
    proof {
        vstd::utf8::encode_utf8_decode_utf8(b@);
    }
    b.to_owned()
}

/// Law: a text that is cut in two is the two parts one after the other.
pub proof fn cut_parts_join(s: Seq<char>, n: int)
    requires
        cuts_at(s, n),
    ensures
        head_bytes(s, n) + tail_bytes(s, n) == s,
{
    vstd::utf8::encode_utf8_valid_utf8(s);
    vstd::utf8::decode_utf8_split(encode_utf8(s), n);
    vstd::utf8::encode_utf8_decode_utf8(s);
}

// ------------------------------------------------------------------------- laws

proof fn lemma_trimmed_start(s: Seq<char>) -> (a: int)
    ensures
        0 <= a <= s.len(),
        trimmed_start(s) == s.skip(a),
        forall|i: int| 0 <= i < a ==> is_space(#[trigger] s[i]),
        a < s.len() ==> !is_space(s[a]),
    decreases s.len(),
{
    if s.len() > 0 && is_space(s[0]) {
        let rest = s.drop_first();
        let a = lemma_trimmed_start(rest) + 1;
        assert(s.skip(a) =~= rest.skip(a - 1));
        assert forall|i: int| 0 <= i < a implies is_space(#[trigger] s[i]) by {
            if i > 0 {
                assert(s[i] == rest[i - 1]);
            }
        }
        if a < s.len() {
            assert(s[a] == rest[a - 1]);
        }
        a
    } else {
        assert(s.skip(0) =~= s);
        0
    }
}

proof fn lemma_trimmed_end(s: Seq<char>) -> (b: int)
    ensures
        0 <= b <= s.len(),
        trimmed_end(s) == s.take(b),
        forall|i: int| b <= i < s.len() ==> is_space(#[trigger] s[i]),
        b > 0 ==> !is_space(s[b - 1]),
    decreases s.len(),
{
    if s.len() > 0 && is_space(s.last()) {
        let front = s.drop_last();
        let b = lemma_trimmed_end(front);
        assert(s.take(b) =~= front.take(b));
        assert forall|i: int| b <= i < s.len() implies is_space(#[trigger] s[i]) by {
            if i < front.len() {
                assert(s[i] == front[i]);
            }
        }
        if b > 0 {
            assert(s[b - 1] == front[b - 1]);
        }
        b
    } else {
        assert(s.take(s.len() as int) =~= s);
        s.len() as int
    }
}

/// Trimming takes white space off both ends, and nothing else: what is left is a part of the
/// text with nothing but white space before and behind it, and neither begins nor ends with
/// any. Gives where that part begins and ends.
pub proof fn trimming_takes_only_space(s: Seq<char>) -> (ends: (int, int))
    ensures
        0 <= ends.0 <= ends.1 <= s.len(),
        trimmed(s) == s.subrange(ends.0, ends.1),
        forall|i: int| 0 <= i < ends.0 ==> is_space(#[trigger] s[i]),
        forall|i: int| ends.1 <= i < s.len() ==> is_space(#[trigger] s[i]),
        trimmed(s).len() > 0 ==> !is_space(trimmed(s)[0]) && !is_space(trimmed(s).last()),
{
    let a = lemma_trimmed_start(s);
    let t = s.skip(a);
    let b = lemma_trimmed_end(t);
    assert(t.take(b) =~= s.subrange(a, a + b));
    assert forall|i: int| a + b <= i < s.len() implies is_space(#[trigger] s[i]) by {
        assert(t[i - a] == s[i]);
    }
    if b > 0 {
        assert(t[0] == s[a]);
        assert(trimmed(s).last() == t[b - 1]);
    }
    (a, a + b)
}

/// A text that neither begins nor ends with white space is not changed by trimming.
pub proof fn trimming_keeps_trimmed_text(s: Seq<char>)
    requires
        s.len() > 0 ==> !is_space(s[0]) && !is_space(s.last()),
    ensures
        trimmed(s) == s,
{
}

/// What a text is split into has no separator in it and is, put together again with separators
/// in between, the text.
pub proof fn split_parts_join(s: Seq<char>, c: char)
    ensures
        joined(split_on(s, c), seq![c]) == s,
        forall|k: int| 0 <= k < split_on(s, c).len() ==> !(#[trigger] split_on(s, c)[k]).contains(c),
    decreases s.len(),
{
    let parts = split_on(s, c);
    if s.len() > 0 {
        let front = s.drop_last();
        let p = split_on(front, c);
        split_parts_join(front, c);
        lemma_split_on_nonempty(front, c);
        assert(front.push(s.last()) =~= s);
        if s.last() == c {
            assert(parts.drop_last() =~= p);
            assert(joined(parts, seq![c]) =~= joined(p, seq![c]) + seq![c]);
        } else {
            let q = p.drop_last();
            assert(parts.drop_last() =~= q);
            assert(parts.last() == p.last().push(s.last()));
            if p.len() > 1 {
                assert(joined(parts, seq![c]) =~= joined(p, seq![c]).push(s.last()));
            } else {
                assert(parts[0] == parts.last());
                assert(p[0] == p.last());
            }
            assert(!parts.last().contains(c)) by {
                let x = p.last();
                assert(!p[p.len() - 1].contains(c));
                if x.push(s.last()).contains(c) {
                    let m = choose|m: int|
                        0 <= m < x.push(s.last()).len() && x.push(s.last())[m] == c;
                    assert(x[m] == c);
                }
            }
        }
        assert forall|k: int| 0 <= k < parts.len() implies !(#[trigger] parts[k]).contains(c) by {
            if k < parts.len() - 1 {
                assert(parts[k] == p[k]);
            } else if s.last() != c {
                assert(parts[k] == parts.last());
            }
        }
    }
}

/// Every part stands in what the parts are joined to.
pub proof fn joined_parts_are_held(parts: Seq<Seq<char>>, sep: Seq<char>, k: int)
    requires
        0 <= k < parts.len(),
    ensures
        holds_text(joined(parts, sep), parts[k]),
    decreases parts.len(),
{
    let j = joined(parts, sep);
    if parts.len() == 1 {
        assert(j.subrange(0int, 0int + parts[k].len()) =~= parts[k]);
    } else {
        let front = parts.drop_last();
        let f = joined(front, sep);
        if k < front.len() {
            joined_parts_are_held(front, sep, k);
            assert(front[k] == parts[k]);
            let i = choose|i: int|
                0 <= i <= f.len() - parts[k].len() && #[trigger] f.subrange(i, i + parts[k].len())
                    == parts[k];
            assert(j.subrange(i, i + parts[k].len()) =~= f.subrange(i, i + parts[k].len()));
        } else {
            let i = (f.len() + sep.len()) as int;
            assert(j.subrange(i, i + parts[k].len()) =~= parts[k]);
        }
    }
}

/// The lines of a text are its parts between line ends, a carriage return before a line end
/// left out; there is no line behind the last line end. No line has a line end in it.
pub proof fn lines_are_the_parts_between_line_ends(s: Seq<char>, k: int)
    requires
        0 <= k < lines_of(s).len(),
    ensures
        !lines_of(s)[k].contains('\n'),
        lines_of(s)[k] == split_on(s, '\n')[k] || lines_of(s)[k].push('\r') == split_on(
            s,
            '\n',
        )[k],
        s.len() > 0 && s.last() == '\n' ==> lines_of(s).len() == split_on(s, '\n').len() - 1,
        s.len() > 0 && s.last() != '\n' ==> lines_of(s).len() == split_on(s, '\n').len(),
{
    split_parts_join(s, '\n');
    lemma_split_on_nonempty(s, '\n');
    let p = split_on(s, '\n');
    let l = lines_of(s)[k];
    assert(!p[k].contains('\n'));
    if l != p[k] {
        assert(l.push('\r') =~= p[k]);
    }
    if l.contains('\n') {
        let m = choose|m: int| 0 <= m < l.len() && l[m] == '\n';
        assert(p[k][m] == '\n');
    }
    if s.len() > 0 {
        lemma_split_on_nonempty(s.drop_last(), '\n');
    }
}

/// A text is parted at the first occurrence of a character, into what stands before and behind
/// it; without one it is not parted.
pub proof fn texts_are_parted_at_the_first(a: Seq<char>, c: char, b: Seq<char>)
    requires
        !a.contains(c),
    ensures
        parted(a + seq![c] + b, c) == Some((a, b)),
        parted(a, c) is None,
    decreases a.len(),
{
    let s = a + seq![c] + b;
    if a.len() == 0 {
        assert(s.drop_first() =~= b);
        assert(a =~= seq![]);
    } else {
        let rest = a.drop_first();
        assert(a.contains(a[0]));
        if rest.contains(c) {
            let k = choose|k: int| 0 <= k < rest.len() && rest[k] == c;
            assert(a[k + 1] == c);
        }
        texts_are_parted_at_the_first(rest, c, b);
        assert(s.drop_first() =~= rest + seq![c] + b);
        assert(seq![s[0]] + rest =~= a);
    }
}

proof fn lemma_one_word(a: Seq<char>)
    requires
        forall|i: int| 0 <= i < a.len() ==> !is_space(#[trigger] a[i]),
    ensures
        split_on_space(a) == seq![a],
    decreases a.len(),
{
    if a.len() > 0 {
        let front = a.drop_last();
        assert forall|i: int| 0 <= i < front.len() implies !is_space(#[trigger] front[i]) by {
            assert(front[i] == a[i]);
        }
        lemma_one_word(front);
        assert(!is_space(a[a.len() - 1]));
        assert(front.push(a.last()) =~= a);
        assert(split_on_space(a) =~= seq![a]);
    } else {
        assert(a =~= Seq::empty());
    }
}

proof fn lemma_two_words(a: Seq<char>, b: Seq<char>)
    requires
        forall|i: int| 0 <= i < a.len() ==> !is_space(#[trigger] a[i]),
        forall|i: int| 0 <= i < b.len() ==> !is_space(#[trigger] b[i]),
    ensures
        split_on_space(a + seq![' '] + b) == seq![a, b],
    decreases b.len(),
{
    let s = a + seq![' '] + b;
    if b.len() == 0 {
        lemma_one_word(a);
        assert(s.drop_last() =~= a);
        assert(b =~= Seq::empty());
        assert(split_on_space(s) =~= seq![a, b]);
    } else {
        let front = b.drop_last();
        assert forall|i: int| 0 <= i < front.len() implies !is_space(#[trigger] front[i]) by {
            assert(front[i] == b[i]);
        }
        lemma_two_words(a, front);
        assert(s.drop_last() =~= a + seq![' '] + front);
        assert(!is_space(b[b.len() - 1]));
        assert(s.last() == b.last());
        assert(front.push(b.last()) =~= b);
        assert(split_on_space(s) =~= seq![a, b]);
    }
}

/// Two runs of characters with a space in between are two words.
pub proof fn words_are_parted_by_space(a: Seq<char>, b: Seq<char>)
    requires
        a.len() > 0,
        b.len() > 0,
        forall|i: int| 0 <= i < a.len() ==> !is_space(#[trigger] a[i]),
        forall|i: int| 0 <= i < b.len() ==> !is_space(#[trigger] b[i]),
    ensures
        words_of(a + seq![' '] + b) == seq![a, b],
{
    lemma_two_words(a, b);
    let f = |w: Seq<char>| w.len() > 0;
    let none = Seq::<Seq<char>>::empty();
    lemma_filter_push(none, a, f);
    lemma_filter_push(none.push(a), b, f);
    assert(none.filter(f) =~= none) by {
        reveal(Seq::filter);
    }
    assert(seq![a, b] =~= none.push(a).push(b));
    assert(words_of(a + seq![' '] + b) =~= seq![a, b]);
}

/// Law: padding adds blanks on one side and nothing else, up to the width that was asked for.
pub proof fn padding_adds_only_blanks(s: Seq<char>, n: int, i: int)
    ensures
        padded_right(s, n).len() == (if s.len() < n {
            n
        } else {
            s.len() as int
        }),
        padded_left(s, n).len() == padded_right(s, n).len(),
        padded_right(s, n).take(s.len() as int) == s,
        padded_left(s, n).skip(padded_left(s, n).len() - s.len()) == s,
        s.len() <= i < padded_right(s, n).len() ==> padded_right(s, n)[i] == ' ',
        0 <= i < padded_left(s, n).len() - s.len() ==> padded_left(s, n)[i] == ' ',
{
    if s.len() < n {
        let k = (n - s.len()) as nat;
        lemma_blanks(k);
        assert(padded_right(s, n).take(s.len() as int) =~= s);
        assert(padded_left(s, n).skip(k as int) =~= s);
    } else {
        assert(padded_right(s, n).take(s.len() as int) =~= s);
        assert(padded_left(s, n).skip(0) =~= s);
    }
}

proof fn lemma_blanks(k: nat)
    ensures
        repeated(" "@, k).len() == k,
        forall|i: int| 0 <= i < k ==> #[trigger] repeated(" "@, k)[i] == ' ',
    decreases k,
{
    reveal_strlit(" ");
    if k > 0 {
        lemma_blanks((k - 1) as nat);
    }
}

/// Law: a text that fits is not shortened, and a longer one keeps its beginning and ends with
/// a sign for what was left out.
pub proof fn shortening_keeps_the_beginning(s: Seq<char>, n: int)
    requires
        n >= 1,
    ensures
        s.len() <= n ==> shortened(s, n) == s,
        s.len() > n ==> shortened(s, n).len() == n && shortened(s, n).take(n - 1) == s.take(n - 1)
            && shortened(s, n).last() == '…',
{
    if s.len() > n {
        assert(shortened(s, n).take(n - 1) =~= s.take(n - 1));
    }
}

/// Law: a number with a sign reads back.
pub proof fn signed_numbers_read_back(n: nat)
    ensures
        n <= i64::MAX ==> parsed_i64(decimal(n)) == Some(n as int),
        n <= 0x8000_0000_0000_0000 ==> parsed_i64(seq!['-'] + decimal(n)) == Some(-(n as int)),
{
    lemma_decimal_value(n);
    let d = decimal(n);
    assert(is_digit(d[0]));
    let m = seq!['-'] + d;
    assert(m.drop_first() =~= d);
    assert(m[0] == '-');
    if n <= i64::MAX {
        decimal_reads_back(n, 0x7FFF_FFFF_FFFF_FFFF);
    }
}

/// Law: what is taken off the front of a text is the prefix, and nothing else.
pub proof fn stripping_takes_the_prefix(p: Seq<char>, rest: Seq<char>)
    ensures
        stripped(p + rest, p) == Some(rest),
        begins_with(p + rest, p),
        ends_in(rest + p, p),
{
    assert((p + rest).take(p.len() as int) =~= p);
    assert((p + rest).skip(p.len() as int) =~= rest);
    assert((rest + p).skip(rest.len() as int) =~= p);
}

} // verus!
