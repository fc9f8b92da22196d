use vstd::prelude::*;
use vstd::utf8::*;
use vstd::string::StringSliceAdditionalSpecFns;

verus! {

/// Appends one character to a `String` (`String::push`).
#[verifier::external_body]
pub(crate) fn push_char(s: &mut String, c: char)
    ensures
        final(s)@ == old(s)@.push(c),
{
    s.push(c);
}

/// Appends a string slice to a `String` (`String::push_str`).
#[verifier::external_body]
pub(crate) fn push_str(s: &mut String, t: &str)
    ensures
        final(s)@ == old(s)@ + t@,
{
    s.push_str(t);
}

/// An owned copy of a text.
pub(crate) fn owned(s: &str) -> (r: String)
    ensures
        r@ == s@,
{
    let mut r = String::new();
    push_str(&mut r, s);
    assert(r@ =~= s@);
    r
}

/// The characters of a string slice, in order.
pub fn chars_of(s: &str) -> (v: Vec<char>)
    ensures
        v@ == s@,
{
    let mut v: Vec<char> = Vec::new();
    for c in it: s.chars()
        invariant
            v@ == it.seq().take(it.index() as int),
    {
        v.push(c);
    }
    v
}

/// A `String` holding exactly the given characters.
pub fn string_from_chars(cs: &[char]) -> (s: String)
    ensures
        s@ == cs@,
{
    let mut s = String::new();
    let mut i: usize = 0;
    while i < cs.len()
        invariant
            i <= cs@.len(),
            s@ == cs@.subrange(0, i as int),
        decreases cs@.len() - i,
    {
        push_char(&mut s, cs[i]);
        i = i + 1;
        assert(s@ =~= cs@.subrange(0, i as int));
    }
    s
}

/// The views of a sequence of strings.
pub open spec fn views(v: Seq<String>) -> Seq<Seq<char>> {
    v.map_values(|s: String| s@)
}

/// Splits `s` at every `'\n'`, keeping every piece (also the empty last one).
pub open spec fn split_at_newlines(s: Seq<char>) -> Seq<Seq<char>>
    decreases s.len(),
{
    if s.len() == 0 {
        seq![Seq::<char>::empty()]
    } else {
        let p = split_at_newlines(s.drop_last());
        if s.last() == '\n' {
            p.push(Seq::<char>::empty())
        } else {
            p.update(p.len() - 1, p.last().push(s.last()))
        }
    }
}

/// A line without the carriage return that ended it.
pub open spec fn strip_carriage_return(l: Seq<char>) -> Seq<char> {
    if l.len() > 0 && l.last() == '\r' {
        l.drop_last()
    } else {
        l
    }
}

/// The lines of a text, as `str::lines` yields them: split at `'\n'` or
/// `"\r\n"`; the final line ending is optional and yields no empty last line.
pub open spec fn lines_of(s: Seq<char>) -> Seq<Seq<char>> {
    if s.len() == 0 {
        Seq::empty()
    } else {
        let p = split_at_newlines(s);
        let ended = p.drop_last().map_values(|l: Seq<char>| strip_carriage_return(l));
        if s.last() == '\n' {
            ended
        } else {
            ended.push(p.last())
        }
    }
}

proof fn lemma_split_nonempty(s: Seq<char>)
    ensures
        split_at_newlines(s).len() >= 1,
    decreases s.len(),
{
    if s.len() > 0 {
        lemma_split_nonempty(s.drop_last());
    }
}

/// Splits a text into its lines (`str::lines`).
pub fn split_lines(text: &str) -> (lines: Vec<String>)
    ensures
        views(lines@) == lines_of(text@),
{
    let cs = chars_of(text);
    let mut done: Vec<String> = Vec::new();
    let mut cur: Vec<char> = Vec::new();
    let mut i: usize = 0;
    proof {
        assert(cs@.subrange(0, 0) =~= Seq::<char>::empty());
    }
    while i < cs.len()
        invariant
            i <= cs@.len(),
            cs@ == text@,
            ({
                let p = split_at_newlines(cs@.subrange(0, i as int));
                &&& p.len() >= 1
                &&& views(done@) == p.drop_last().map_values(|l: Seq<char>| strip_carriage_return(l))
                &&& cur@ == p.last()
            }),
        decreases cs@.len() - i,
    {
        let c = cs[i];
        let ghost pre = cs@.subrange(0, i as int);
        let ghost p = split_at_newlines(pre);
        proof {
            assert(cs@.subrange(0, i + 1).drop_last() =~= pre);
            assert(cs@.subrange(0, i + 1).last() == c);
        }
        if c == '\n' {
            let mut line = cur;
            if line.len() > 0 && line[line.len() - 1] == '\r' {
                line.pop();
                assert(line@ =~= strip_carriage_return(p.last()));
            }
            let s = string_from_chars(&line);
            let ghost old_done = done@;
            done.push(s);
            cur = Vec::new();
            proof {
                assert(views(done@) =~= views(old_done).push(strip_carriage_return(p.last())));
                let q = split_at_newlines(cs@.subrange(0, i + 1));
                assert(q == p.push(Seq::<char>::empty()));
                assert(q.drop_last() =~= p);
                assert(p =~= p.drop_last().push(p.last()));
                assert(views(done@) =~= q.drop_last().map_values(|l: Seq<char>| strip_carriage_return(l)));
            }
        } else {
            cur.push(c);
            proof {
                let q = split_at_newlines(cs@.subrange(0, i + 1));
                assert(q == p.update(p.len() - 1, p.last().push(c)));
                assert(q.drop_last() =~= p.drop_last());
            }
        }
        i = i + 1;
    }
    proof {
        assert(cs@.subrange(0, cs@.len() as int) =~= cs@);
    }
    if cs.len() > 0 && cs[cs.len() - 1] != '\n' {
        let s = string_from_chars(&cur);
        done.push(s);
        proof {
            let p = split_at_newlines(cs@);
            assert(views(done@) =~= p.drop_last().map_values(|l: Seq<char>| strip_carriage_return(l)).push(p.last()));
        }
    } else if cs.len() == 0 {
        assert(views(done@) =~= lines_of(text@));
    }
    done
}


/// The lines joined with `'\n'` between them (`[&str]::join("\n")`).
pub open spec fn join_lines(ls: Seq<Seq<char>>) -> Seq<char>
    decreases ls.len(),
{
    if ls.len() == 0 {
        Seq::empty()
    } else if ls.len() == 1 {
        ls[0]
    } else {
        join_lines(ls.drop_last()).push('\n') + ls.last()
    }
}

/// Joins `lines[from..to]` with `'\n'`.
pub fn join_line_range(lines: &Vec<String>, from: usize, to: usize) -> (s: String)
    requires
        from <= to <= lines@.len(),
    ensures
        s@ == join_lines(views(lines@).subrange(from as int, to as int)),
{
    let mut s = String::new();
    let mut i = from;
    proof {
        assert(views(lines@).subrange(from as int, from as int) =~= Seq::<Seq<char>>::empty());
    }
    while i < to
        invariant
            from <= i <= to,
            to <= lines@.len(),
            s@ == join_lines(views(lines@).subrange(from as int, i as int)),
        decreases to - i,
    {
        let ghost before = s@;
        if i > from {
            push_char(&mut s, '\n');
        }
        push_str(&mut s, lines[i].as_str());
        proof {
            let sub = views(lines@).subrange(from as int, i + 1);
            assert(sub.drop_last() =~= views(lines@).subrange(from as int, i as int));
            if i == from {
                assert(sub.len() == 1);
                assert(s@ =~= sub[0]);
            }
        }
        i = i + 1;
    }
    s
}

/// The character of a decimal digit.
pub open spec fn digit_char(d: nat) -> char {
    if d == 0 { '0' } else if d == 1 { '1' } else if d == 2 { '2' } else if d == 3 { '3' }
    else if d == 4 { '4' } else if d == 5 { '5' } else if d == 6 { '6' } else if d == 7 { '7' }
    else if d == 8 { '8' } else { '9' }
}

/// The decimal notation of a natural number, as `Display` writes it.
pub open spec fn decimal(n: nat) -> Seq<char>
    decreases n,
{
    if n < 10 {
        seq![digit_char(n)]
    } else {
        decimal(n / 10).push(digit_char(n % 10))
    }
}

fn digit(d: usize) -> (c: char)
    requires
        d < 10,
    ensures
        c == digit_char(d as nat),
{
    if d == 0 { '0' } else if d == 1 { '1' } else if d == 2 { '2' } else if d == 3 { '3' }
    else if d == 4 { '4' } else if d == 5 { '5' } else if d == 6 { '6' } else if d == 7 { '7' }
    else if d == 8 { '8' } else { '9' }
}

/// Appends the decimal notation of `n`.
pub fn push_decimal(s: &mut String, n: usize)
    ensures
        final(s)@ == old(s)@ + decimal(n as nat),
    decreases n,
{
    if n >= 10 {
        push_decimal(s, n / 10);
    }
    push_char(s, digit(n % 10));
    proof {
        if n >= 10 {
            assert(final(s)@ =~= old(s)@ + decimal(n as nat));
        } else {
            assert(final(s)@ =~= old(s)@ + decimal(n as nat));
        }
    }
}

/// The number of bytes of the UTF-8 encoding of a text.
pub open spec fn byte_len(s: Seq<char>) -> nat {
    encode_utf8(s).len()
}

/// A text has no bytes exactly when it has no characters.
pub proof fn lemma_byte_len_empty(s: Seq<char>)
    ensures
        (byte_len(s) == 0) <==> (s.len() == 0),
{
    if s.len() > 0 {
        let e = encode_scalar(s[0] as u32);
        assert(e.len() >= 1);
        assert(encode_utf8(s) == e + encode_utf8(s.drop_first()));
    }
}

/// A text that is not empty has at least one line.
pub proof fn lemma_lines_nonempty(s: Seq<char>)
    ensures
        (lines_of(s).len() == 0) <==> (s.len() == 0),
{
    if s.len() > 0 {
        lemma_split_nonempty(s.drop_last());
        lemma_split_nonempty(s);
    }
}

/// The byte length of a string slice (`str::len`).
pub fn utf8_len(s: &str) -> (n: usize)
    ensures
        n == byte_len(s@),
{
    s.as_bytes().len()
}

/// The rough token count of a text: one token per started group of four bytes.
pub open spec fn token_estimate(s: Seq<char>) -> nat {
    (byte_len(s) + 3) / 4
}

/// `str::get(from..to)`: the text between two byte offsets, where both fall on
/// character boundaries and `from <= to <= len`.
pub open spec fn text_in_byte_range(s: Seq<char>, from: int, to: int) -> Option<Seq<char>> {
    let bytes = encode_utf8(s);
    if 0 <= from <= to <= bytes.len() && is_char_boundary(bytes, from) && is_char_boundary(bytes, to) {
        Some(decode_utf8(bytes.subrange(from, to)))
    } else {
        None
    }
}

/// Whether a character has the Unicode `White_Space` property, as
/// `char::is_whitespace` tells: the ASCII tab, line feed, vertical tab, form
/// feed, carriage return and space, next line (U+0085), no-break space
/// (U+00A0), ogham space mark (U+1680), the spaces U+2000 to U+200A, the line
/// and paragraph separators (U+2028, U+2029), the narrow no-break space
/// (U+202F), the medium mathematical space (U+205F) and the ideographic space
/// (U+3000).
pub open spec fn is_white_space(c: char) -> bool {
    let n = c as u32;
    ||| 0x09 <= n <= 0x0d
    ||| n == 0x20
    ||| n == 0x85
    ||| n == 0xa0
    ||| n == 0x1680
    ||| 0x2000 <= n <= 0x200a
    ||| n == 0x2028
    ||| n == 0x2029
    ||| n == 0x202f
    ||| n == 0x205f
    ||| n == 0x3000
}

/// Whether a character is white space (see `is_white_space`).
pub fn char_is_whitespace(c: char) -> (b: bool)
    ensures
        b == is_white_space(c),
{
    let n = c as u32;
    (0x09 <= n && n <= 0x0d) || n == 0x20 || n == 0x85 || n == 0xa0 || n == 0x1680
        || (0x2000 <= n && n <= 0x200a) || n == 0x2028 || n == 0x2029 || n == 0x202f || n == 0x205f
        || n == 0x3000
}

/// Whether a character is alphabetic or numeric in Unicode (`char::is_alphanumeric`).
pub uninterp spec fn is_alphanumeric(c: char) -> bool;

/// Calls `char::is_alphanumeric`; its result is named `is_alphanumeric`.
#[verifier::external_body]
pub(crate) fn char_is_alphanumeric(c: char) -> (b: bool)
    ensures
        b == is_alphanumeric(c),
{
    c.is_alphanumeric()
}

/// Drops leading white space.
pub open spec fn trim_start(s: Seq<char>) -> Seq<char>
    decreases s.len(),
{
    if s.len() > 0 && is_white_space(s[0]) {
        trim_start(s.drop_first())
    } else {
        s
    }
}

/// Drops trailing white space.
pub open spec fn trim_end(s: Seq<char>) -> Seq<char>
    decreases s.len(),
{
    if s.len() > 0 && is_white_space(s.last()) {
        trim_end(s.drop_last())
    } else {
        s
    }
}

/// `str::trim`: leading and trailing white space removed.
pub open spec fn trim(s: Seq<char>) -> Seq<char> {
    trim_end(trim_start(s))
}

proof fn lemma_trim_start_skip(s: Seq<char>, i: int)
    requires
        0 <= i <= s.len(),
        forall|j: int| 0 <= j < i ==> is_white_space(s[j]),
    ensures
        trim_start(s) == trim_start(s.subrange(i, s.len() as int)),
    decreases i,
{
    if i > 0 {
        assert(s.drop_first().subrange(i - 1, s.drop_first().len() as int) =~= s.subrange(i, s.len() as int));
        lemma_trim_start_skip(s.drop_first(), i - 1);
    } else {
        assert(s.subrange(0, s.len() as int) =~= s);
    }
}

proof fn lemma_trim_end_skip(s: Seq<char>, i: int)
    requires
        0 <= i <= s.len(),
        forall|j: int| i <= j < s.len() ==> is_white_space(s[j]),
    ensures
        trim_end(s) == trim_end(s.subrange(0, i)),
    decreases s.len() - i,
{
    if i < s.len() {
        assert(s.drop_last().subrange(0, i) =~= s.subrange(0, i));
        lemma_trim_end_skip(s.drop_last(), i);
    } else {
        assert(s.subrange(0, i) =~= s);
    }
}

/// The characters of `cs` with white space trimmed at both ends.
pub fn trim_chars(cs: &[char]) -> (t: Vec<char>)
    ensures
        t@ == trim(cs@),
{
    let n = cs.len();
    let mut a: usize = 0;
    while a < n && char_is_whitespace(cs[a])
        invariant
            a <= n,
            n == cs@.len(),
            forall|j: int| 0 <= j < a ==> is_white_space(cs@[j]),
        decreases n - a,
    {
        a = a + 1;
    }
    proof {
        lemma_trim_start_skip(cs@, a as int);
    }
    let ghost rest = cs@.subrange(a as int, n as int);
    let mut b: usize = n;
    while b > a && char_is_whitespace(cs[b - 1])
        invariant
            a <= b <= n,
            n == cs@.len(),
            forall|j: int| b <= j < n ==> is_white_space(cs@[j]),
        decreases b,
    {
        b = b - 1;
    }
    proof {
        if a < n {
            assert(!is_white_space(rest[0]));
            assert(trim_start(rest) == rest);
        } else {
            assert(rest.len() == 0);
        }
        assert forall|j: int| b - a <= j < rest.len() implies is_white_space(rest[j]) by {
            assert(rest[j] == cs@[a + j]);
        }
        lemma_trim_end_skip(rest, b - a);
        assert(rest.subrange(0, b - a) =~= cs@.subrange(a as int, b as int));
        if b > a {
            assert(!is_white_space(cs@[b - 1]));
            let r = cs@.subrange(a as int, b as int);
            assert(r.last() == cs@[b - 1]);
        }
    }
    let mut t: Vec<char> = Vec::new();
    let mut k = a;
    while k < b
        invariant
            a <= k <= b <= n,
            n == cs@.len(),
            t@ == cs@.subrange(a as int, k as int),
        decreases b - k,
    {
        t.push(cs[k]);
        k = k + 1;
        assert(t@ =~= cs@.subrange(a as int, k as int));
    }
    t
}


/// `str::get(from..to)` on byte offsets.
pub fn get_byte_range(s: &str, from: usize, to: usize) -> (r: Option<&str>)
    ensures
        r matches Some(t) ==> text_in_byte_range(s@, from as int, to as int) == Some(t@),
        r is None ==> text_in_byte_range(s@, from as int, to as int) is None,
{
    let n = utf8_len(s);
    let ghost bytes = encode_utf8(s@);
    proof {
        encode_utf8_valid_utf8(s@);
    }
    if from <= to && to <= n && s.is_char_boundary(from) && s.is_char_boundary(to) {
        let (head, _tail) = s.split_at(to);
        proof {
            valid_utf8_split(bytes, to as int);
            assert(head.spec_bytes() =~= bytes.subrange(0, to as int));
            let hb = bytes.subrange(0, to as int);
            if from < to {
                is_char_boundary_iff_not_is_continuation_byte(bytes, from as int);
                is_char_boundary_iff_not_is_continuation_byte(hb, from as int);
                assert(hb[from as int] == bytes[from as int]);
            } else {
                is_char_boundary_start_end_of_seq(hb);
            }
        }
        let (_pre, mid) = head.split_at(from);
        proof {
            let hb = bytes.subrange(0, to as int);
            assert(mid.spec_bytes() =~= bytes.subrange(from as int, to as int));
            encode_utf8_decode_utf8(mid@);
        }
        Some(mid)
    } else {
        None
    }
}


/// Whether two character sequences are equal, one of them given as a `str`.
pub fn chars_eq_str(a: &[char], b: &str) -> (r: bool)
    ensures
        r == (a@ == b@),
{
    let bs = chars_of(b);
    if a.len() != bs.len() {
        return false;
    }
    let mut i: usize = 0;
    while i < a.len()
        invariant
            i <= a@.len(),
            a@.len() == bs@.len(),
            bs@ == b@,
            forall|j: int| 0 <= j < i ==> a@[j] == bs@[j],
        decreases a@.len() - i,
    {
        if a[i] != bs[i] {
            assert(a@[i as int] != b@[i as int]);
            return false;
        }
        i = i + 1;
    }
    assert(a@ =~= bs@);
    true
}

/// What `str::to_lowercase` returns for a text.
pub uninterp spec fn lowercase(s: Seq<char>) -> Seq<char>;

/// Calls `str::to_lowercase`; its result is named `lowercase`.
#[verifier::external_body]
pub(crate) fn to_lowercase(s: &str) -> (r: String)
    ensures
        r@ == lowercase(s@),
{
    s.to_lowercase()
}


/// The text of `s` between two byte offsets, or the empty text where
/// `str::get` gives nothing (`s.get(from..to).unwrap_or("")`).
pub open spec fn text_or_empty(s: Seq<char>, from: int, to: int) -> Seq<char> {
    match text_in_byte_range(s, from, to) {
        Some(t) => t,
        None => Seq::empty(),
    }
}

/// The index of the first `'\n'` at or after `i`, or the length.
pub open spec fn first_newline_from(s: Seq<char>, i: int) -> int
    decreases s.len() - i,
{
    if i >= s.len() {
        s.len() as int
    } else if s[i] == '\n' {
        i
    } else {
        first_newline_from(s, i + 1)
    }
}

/// The first line of a text, as `str::lines().next().unwrap_or("")` gives it:
/// the text before the first `'\n'`, without a `'\r'` that ends it.
pub open spec fn first_line(s: Seq<char>) -> Seq<char> {
    let e = first_newline_from(s, 0);
    if e < s.len() {
        strip_carriage_return(s.subrange(0, e))
    } else {
        s
    }
}

/// The first line of `cs`, with white space trimmed at both ends.
pub fn trimmed_first_line(cs: &[char]) -> (t: Vec<char>)
    ensures
        t@ == trim(first_line(cs@)),
{
    let n = cs.len();
    let mut e: usize = 0;
    while e < n && cs[e] != '\n'
        invariant
            e <= n,
            n == cs@.len(),
            first_newline_from(cs@, e as int) == first_newline_from(cs@, 0),
        decreases n - e,
    {
        e = e + 1;
    }
    if e == n {
        return trim_chars(cs);
    }
    let mut line: Vec<char> = Vec::new();
    let mut k: usize = 0;
    while k < e
        invariant
            k <= e < n,
            n == cs@.len(),
            line@ == cs@.subrange(0, k as int),
        decreases e - k,
    {
        line.push(cs[k]);
        k = k + 1;
        assert(line@ =~= cs@.subrange(0, k as int));
    }
    if e > 0 && cs[e - 1] == '\r' {
        line.pop();
        assert(line@ =~= strip_carriage_return(cs@.subrange(0, e as int)));
    }
    trim_chars(&line)
}


/// Lexicographic order of texts by character code points, which for UTF-8
/// is the order of their bytes (the order of `str` and `String`).
pub open spec fn text_less(a: Seq<char>, b: Seq<char>) -> bool
    decreases a.len(),
{
    if a.len() == 0 {
        b.len() > 0
    } else if b.len() == 0 {
        false
    } else if a[0] != b[0] {
        (a[0] as int) < (b[0] as int)
    } else {
        text_less(a.drop_first(), b.drop_first())
    }
}

/// `text_less` is a strict total order.
pub proof fn lemma_text_less_order(a: Seq<char>, b: Seq<char>, c: Seq<char>)
    ensures
        !text_less(a, a),
        text_less(a, b) ==> !text_less(b, a),
        a != b ==> text_less(a, b) || text_less(b, a),
        text_less(a, b) && text_less(b, c) ==> text_less(a, c),
{
    lemma_text_less_irreflexive(a);
    lemma_text_less_asymmetric(a, b);
    lemma_text_less_total(a, b);
    lemma_text_less_transitive(a, b, c);
}

proof fn lemma_text_less_irreflexive(a: Seq<char>)
    ensures
        !text_less(a, a),
    decreases a.len(),
{
    if a.len() > 0 {
        lemma_text_less_irreflexive(a.drop_first());
    }
}

proof fn lemma_text_less_asymmetric(a: Seq<char>, b: Seq<char>)
    ensures
        text_less(a, b) ==> !text_less(b, a),
    decreases a.len(),
{
    if a.len() > 0 && b.len() > 0 && a[0] == b[0] {
        lemma_text_less_asymmetric(a.drop_first(), b.drop_first());
    }
}

proof fn lemma_text_less_total(a: Seq<char>, b: Seq<char>)
    ensures
        a != b ==> text_less(a, b) || text_less(b, a),
    decreases a.len(),
{
    if a.len() > 0 && b.len() > 0 && a[0] == b[0] {
        lemma_text_less_total(a.drop_first(), b.drop_first());
        if a.drop_first() == b.drop_first() {
            assert(a =~= seq![a[0]] + a.drop_first());
            assert(b =~= seq![b[0]] + b.drop_first());
        }
    }
    if a.len() == 0 && b.len() == 0 {
        assert(a =~= b);
    }
}

proof fn lemma_text_less_transitive(a: Seq<char>, b: Seq<char>, c: Seq<char>)
    ensures
        text_less(a, b) && text_less(b, c) ==> text_less(a, c),
    decreases a.len(),
{
    if a.len() > 0 && b.len() > 0 && c.len() > 0 && a[0] == b[0] && b[0] == c[0] {
        lemma_text_less_transitive(a.drop_first(), b.drop_first(), c.drop_first());
    }
}

/// Whether `a` comes before `b` in the order of texts.
pub fn text_lt(a: &str, b: &str) -> (r: bool)
    ensures
        r == text_less(a@, b@),
{
    let x = chars_of(a);
    let y = chars_of(b);
    let mut i: usize = 0;
    proof {
        assert(a@.subrange(0, a@.len() as int) =~= a@);
        assert(b@.subrange(0, b@.len() as int) =~= b@);
    }
    while i < x.len() && i < y.len()
        invariant
            x@ == a@,
            y@ == b@,
            i <= x@.len(),
            i <= y@.len(),
            x@.subrange(0, i as int) == y@.subrange(0, i as int),
            text_less(a@, b@) == text_less(a@.subrange(i as int, a@.len() as int), b@.subrange(i as int, b@.len() as int)),
        decreases x@.len() - i,
    {
        let ghost sa = a@.subrange(i as int, a@.len() as int);
        let ghost sb = b@.subrange(i as int, b@.len() as int);
        if x[i] != y[i] {
            proof {
                assert(sa[0] == x@[i as int]);
                assert(sb[0] == y@[i as int]);
            }
            return x[i] < y[i];
        }
        proof {
            assert(sa.drop_first() =~= a@.subrange(i + 1, a@.len() as int));
            assert(sb.drop_first() =~= b@.subrange(i + 1, b@.len() as int));
            assert(x@.subrange(0, i + 1) =~= x@.subrange(0, i as int).push(x@[i as int]));
            assert(y@.subrange(0, i + 1) =~= y@.subrange(0, i as int).push(y@[i as int]));
        }
        i = i + 1;
    }
    i < y.len()
}

} // verus!
