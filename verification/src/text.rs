//! Text helpers: case-insensitive comparison, trimming, and the slug that
//! names a feed after its URL.

use vstd::prelude::*;

verus! {

/// The characters that `str::to_lowercase` returns for a string of the given
/// characters.
pub uninterp spec fn lowercase(s: Seq<char>) -> Seq<char>;

/// `str::to_lowercase` returns the lowercase form of its argument, a value
/// that depends on the characters of the argument alone.
pub assume_specification[ str::to_lowercase ](s: &str) -> (r: String)
    ensures
        r@ == lowercase(s@),
;

/// Whether a character is white space: whether it is one of the code
/// points that carry the Unicode property `White_Space`. These are the
/// controls from tab to carriage return, the space, the next-line control,
/// the no-break space, the Ogham space mark, the spaces from en quad to
/// hair space, the line and the paragraph separator, the narrow no-break
/// space, the medium mathematical space and the ideographic space.
pub open spec fn is_white_space(c: char) -> bool {
    let n = c as u32;
    ||| 0x09 <= n <= 0x0D
    ||| n == 0x20
    ||| n == 0x85
    ||| n == 0xA0
    ||| n == 0x1680
    ||| 0x2000 <= n <= 0x200A
    ||| n == 0x2028
    ||| n == 0x2029
    ||| n == 0x202F
    ||| n == 0x205F
    ||| n == 0x3000
}

/// Whether `c` is white space.
pub fn is_space(c: char) -> (b: bool)
    ensures
        b == is_white_space(c),
{
    let n: u32 = c as u32;
    (0x09 <= n && n <= 0x0D) || n == 0x20 || n == 0x85 || n == 0xA0 || n == 0x1680 || (0x2000 <= n
        && n <= 0x200A) || n == 0x2028 || n == 0x2029 || n == 0x202F || n == 0x205F || n == 0x3000
}

/// `String::push` appends one character to the end of the string.
pub assume_specification[ String::push ](s: &mut String, c: char)
    ensures
        final(s)@ == old(s)@.push(c),
;

/// Two strings are the same up to letter case.
pub open spec fn same_ignoring_case(a: Seq<char>, b: Seq<char>) -> bool {
    lowercase(a) == lowercase(b)
}

/// `s` without its leading white space.
pub open spec fn trim_start(s: Seq<char>) -> Seq<char>
    decreases s.len(),
{
    if s.len() > 0 && is_white_space(s.first()) {
        trim_start(s.drop_first())
    } else {
        s
    }
}

/// `s` without its trailing white space.
pub open spec fn trim_end(s: Seq<char>) -> Seq<char>
    decreases s.len(),
{
    if s.len() > 0 && is_white_space(s.last()) {
        trim_end(s.drop_last())
    } else {
        s
    }
}

/// `s` without leading and trailing white space.
pub open spec fn trimmed(s: Seq<char>) -> Seq<char> {
    trim_end(trim_start(s))
}

/// `s` with every occurrence of `pat` taken out. Occurrences are found from
/// left to right and do not overlap.
pub open spec fn without_all(s: Seq<char>, pat: Seq<char>) -> Seq<char>
    decreases s.len(),
{
    if pat.len() == 0 || s.len() < pat.len() {
        s
    } else if s.subrange(0, pat.len() as int) == pat {
        without_all(s.skip(pat.len() as int), pat)
    } else {
        seq![s.first()] + without_all(s.drop_first(), pat)
    }
}

/// `s` without the run of `c` at its end.
pub open spec fn strip_trailing(s: Seq<char>, c: char) -> Seq<char>
    decreases s.len(),
{
    if s.len() > 0 && s.last() == c {
        strip_trailing(s.drop_last(), c)
    } else {
        s
    }
}

/// `s` with every `from` replaced by `to`.
pub open spec fn with_char_replaced(s: Seq<char>, from: char, to: char) -> Seq<char> {
    Seq::new(s.len(), |i: int| if s[i] == from { to } else { s[i] })
}

/// The characters `https://`.
pub open spec fn https_scheme() -> Seq<char> {
    seq!['h', 't', 't', 'p', 's', ':', '/', '/']
}

/// The characters `http://`.
pub open spec fn http_scheme() -> Seq<char> {
    seq!['h', 't', 't', 'p', ':', '/', '/']
}

/// The slug of a URL: every `https://` and then every `http://` is taken
/// out, the slashes at the end are dropped, and each slash that is left
/// becomes a dash.
pub open spec fn slug_of(url: Seq<char>) -> Seq<char> {
    with_char_replaced(
        strip_trailing(without_all(without_all(url, https_scheme()), http_scheme()), '/'),
        '/',
        '-',
    )
}

/// The characters of `s`, in order.
pub fn chars_of(s: &str) -> (v: Vec<char>)
    ensures
        v@ == s@,
{
    let mut v: Vec<char> = Vec::new();
    for c in it: s.chars()
        invariant
            v@ == it.seq().take(it.index()),
            it.seq() == s@,
    {
        v.push(c);
    }
    v
}

/// The string made of the characters `v[from..to]`.
pub fn string_of(v: &Vec<char>, from: usize, to: usize) -> (s: String)
    requires
        from <= to <= v.len(),
    ensures
        s@ == v@.subrange(from as int, to as int),
{
    let mut s = String::new();
    let mut i: usize = from;
    while i < to
        invariant
            from <= i <= to <= v.len(),
            s@ == v@.subrange(from as int, i as int),
        decreases to - i,
    {
        s.push(v[i]);
        i += 1;
    }
    s
}

/// Whether `a` and `b` are equal once both are in lowercase.
pub fn eq_ignore_case(a: &str, b: &str) -> (r: bool)
    ensures
        r == same_ignoring_case(a@, b@),
{
    a.to_lowercase() == b.to_lowercase()
}

/// `s` without leading and trailing white space.
pub fn trim(s: &str) -> (r: String)
    ensures
        r@ == trimmed(s@),
{
    let v = chars_of(s);
    let mut start: usize = 0;
    proof {
        assert(v@.skip(0) == v@);
    }
    while start < v.len() && is_space(v[start])
        invariant
            start <= v.len(),
            trim_start(v@) == trim_start(v@.skip(start as int)),
        decreases v.len() - start,
    {
        proof {
            assert(v@.skip(start as int).drop_first() == v@.skip(start + 1));
        }
        start += 1;
    }
    assert(trim_start(v@) == v@.skip(start as int));
    let mut end: usize = v.len();
    proof {
        assert(v@.skip(start as int) == v@.subrange(start as int, end as int));
    }
    while end > start && is_space(v[end - 1])
        invariant
            start <= end <= v.len(),
            trim_end(v@.skip(start as int)) == trim_end(v@.subrange(start as int, end as int)),
        decreases end,
    {
        proof {
            assert(v@.subrange(start as int, end as int).drop_last() == v@.subrange(
                start as int,
                end - 1,
            ));
        }
        end -= 1;
    }
    string_of(&v, start, end)
}

/// Whether `pat` stands in `v` at position `at`.
fn occurs_at(v: &Vec<char>, at: usize, pat: &Vec<char>) -> (b: bool)
    requires
        at <= v.len(),
    ensures
        b == (at + pat.len() <= v.len() && v@.subrange(at as int, at + pat.len()) == pat@),
{
    if pat.len() > v.len() - at {
        return false;
    }
    let mut k: usize = 0;
    while k < pat.len()
        invariant
            k <= pat.len(),
            at + pat.len() <= v.len(),
            forall|j: int| 0 <= j < k ==> v@[at + j] == pat@[j],
        decreases pat.len() - k,
    {
        if v[at + k] != pat[k] {
            proof {
                assert(v@.subrange(at as int, at + pat.len())[k as int] == v@[at + k]);
            }
            return false;
        }
        k += 1;
    }
    proof {
        assert(v@.subrange(at as int, at + pat.len()) =~= pat@);
    }
    true
}

/// `v` with every occurrence of `pat` taken out.
fn remove_all(v: &Vec<char>, pat: &Vec<char>) -> (r: Vec<char>)
    requires
        pat.len() > 0,
    ensures
        r@ == without_all(v@, pat@),
{
    let mut out: Vec<char> = Vec::new();
    let mut i: usize = 0;
    proof {
        assert(v@.skip(0) == v@);
    }
    while i < v.len()
        invariant
            i <= v.len(),
            pat.len() > 0,
            without_all(v@, pat@) == out@ + without_all(v@.skip(i as int), pat@),
        decreases v.len() - i,
    {
        let ghost rest = v@.skip(i as int);
        if occurs_at(v, i, pat) {
            proof {
                assert(rest.subrange(0, pat.len() as int) == v@.subrange(
                    i as int,
                    i + pat.len(),
                ));
                assert(rest.skip(pat.len() as int) == v@.skip(i + pat.len()));
            }
            i += pat.len();
        } else {
            proof {
                assert(rest.drop_first() == v@.skip(i + 1));
                if rest.len() >= pat.len() {
                    assert(rest.subrange(0, pat.len() as int) == v@.subrange(
                        i as int,
                        i + pat.len(),
                    ));
                } else {
                    lemma_short_untouched(rest.drop_first(), pat@);
                    assert(rest == seq![rest.first()] + rest.drop_first());
                }
                assert(without_all(rest, pat@) == seq![rest.first()] + without_all(
                    rest.drop_first(),
                    pat@,
                ));
                assert(out@.push(v@[i as int]) + without_all(v@.skip(i + 1), pat@) == out@ + (
                seq![rest.first()] + without_all(rest.drop_first(), pat@)));
            }
            out.push(v[i]);
            i += 1;
        }
    }
    proof {
        assert(out@ + without_all(v@.skip(i as int), pat@) == out@);
    }
    out
}

/// A string shorter than the pattern holds no occurrence of it.
proof fn lemma_short_untouched(s: Seq<char>, pat: Seq<char>)
    requires
        s.len() < pat.len(),
    ensures
        without_all(s, pat) == s,
{
}

/// The slug that names a feed after its URL.
pub fn slug(url: &str) -> (r: String)
    ensures
        r@ == slug_of(url@),
{
    let https = chars_of("https://");
    let http = chars_of("http://");
    proof {
        reveal_strlit("https://");
        reveal_strlit("http://");
        assert(https@ =~= https_scheme());
        assert(http@ =~= http_scheme());
    }
    let v = chars_of(url);
    let v = remove_all(&v, &https);
    let v = remove_all(&v, &http);
    let mut end: usize = v.len();
    proof {
        assert(v@.subrange(0, end as int) == v@);
    }
    while end > 0 && v[end - 1] == '/'
        invariant
            end <= v.len(),
            strip_trailing(v@, '/') == strip_trailing(v@.subrange(0, end as int), '/'),
        decreases end,
    {
        proof {
            assert(v@.subrange(0, end as int).drop_last() == v@.subrange(0, end - 1));
        }
        end -= 1;
    }
    let mut s = String::new();
    let mut i: usize = 0;
    while i < end
        invariant
            i <= end <= v.len(),
            s@ == with_char_replaced(v@.subrange(0, i as int), '/', '-'),
        decreases end - i,
    {
        let c = v[i];
        proof {
            assert(with_char_replaced(v@.subrange(0, i + 1), '/', '-') == with_char_replaced(
                v@.subrange(0, i as int),
                '/',
                '-',
            ).push(if c == '/' { '-' } else { c }));
        }
        if c == '/' {
            s.push('-');
        } else {
            s.push(c);
        }
        i += 1;
    }
    s
}

} // verus!
