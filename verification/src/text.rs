//! Character-level text model shared by the parsers: whitespace, trimming,
//! line splitting and the small string operations the loaders rely on.
use vstd::prelude::*;

verus! {

broadcast use vstd::string::group_string_axioms;

/// Unicode `White_Space`, the property that `char::is_whitespace` tests.
pub open spec fn is_ws(c: char) -> bool {
    ||| ('\u{9}' <= c && c <= '\u{d}')
    ||| c == ' '
    ||| c == '\u{85}'
    ||| c == '\u{a0}'
    ||| c == '\u{1680}'
    ||| ('\u{2000}' <= c && c <= '\u{200a}')
    ||| c == '\u{2028}'
    ||| c == '\u{2029}'
    ||| c == '\u{202f}'
    ||| c == '\u{205f}'
    ||| c == '\u{3000}'
}

/// Every character of `s` is whitespace (so trimming leaves nothing).
pub open spec fn is_blank(s: Seq<char>) -> bool {
    forall|i: int| 0 <= i < s.len() ==> is_ws(#[trigger] s[i])
}

/// `s` with leading whitespace removed.
pub open spec fn trim_start(s: Seq<char>) -> Seq<char>
    decreases s.len(),
{
    if s.len() > 0 && is_ws(s[0]) {
        trim_start(s.drop_first())
    } else {
        s
    }
}

/// `s` with trailing whitespace removed.
pub open spec fn trim_end(s: Seq<char>) -> Seq<char>
    decreases s.len(),
{
    if s.len() > 0 && is_ws(s.last()) {
        trim_end(s.drop_last())
    } else {
        s
    }
}

/// `str::trim`: both ends stripped of whitespace.
pub open spec fn trim(s: Seq<char>) -> Seq<char> {
    trim_end(trim_start(s))
}

/// `s` with every trailing `c` removed (`str::trim_end_matches` with a char).
pub open spec fn trim_end_char(s: Seq<char>, c: char) -> Seq<char>
    decreases s.len(),
{
    if s.len() > 0 && s.last() == c {
        trim_end_char(s.drop_last(), c)
    } else {
        s
    }
}

/// Splitting on `c`, scanning left to right with the piece built so far in `cur`.
pub open spec fn split_acc(s: Seq<char>, c: char, cur: Seq<char>) -> Seq<Seq<char>>
    decreases s.len(),
{
    if s.len() == 0 {
        seq![cur]
    } else if s[0] == c {
        seq![cur] + split_acc(s.drop_first(), c, Seq::empty())
    } else {
        split_acc(s.drop_first(), c, cur.push(s[0]))
    }
}

/// `str::split(c)`: always one more piece than there are separators.
pub open spec fn split_char(s: Seq<char>, c: char) -> Seq<Seq<char>> {
    split_acc(s, c, Seq::empty())
}

/// `str::split_terminator(c)`: `split`, without a trailing empty piece.
pub open spec fn split_terminator(s: Seq<char>, c: char) -> Seq<Seq<char>> {
    let p = split_char(s, c);
    if p.last().len() == 0 {
        p.drop_last()
    } else {
        p
    }
}

/// One trailing carriage return removed, if there is one.
pub open spec fn strip_cr(s: Seq<char>) -> Seq<char> {
    if s.len() > 0 && s.last() == '\r' {
        s.drop_last()
    } else {
        s
    }
}

/// `str::lines`: pieces ended by `\n` lose that `\n` and one `\r` before it;
/// a final piece with no line ending is kept as it is, and dropped when empty.
pub open spec fn lines_of(s: Seq<char>) -> Seq<Seq<char>> {
    let p = split_char(s, '\n');
    let ended = p.drop_last().map_values(|l: Seq<char>| strip_cr(l));
    if p.last().len() == 0 {
        ended
    } else {
        ended.push(p.last())
    }
}

/// `str::replace("\r\n", "\n")`: leftmost, non-overlapping replacement.
pub open spec fn replace_crlf(s: Seq<char>) -> Seq<char>
    decreases s.len(),
{
    if s.len() >= 2 && s[0] == '\r' && s[1] == '\n' {
        seq!['\n'] + replace_crlf(s.skip(2))
    } else if s.len() == 0 {
        s
    } else {
        seq![s[0]] + replace_crlf(s.drop_first())
    }
}

/// `str::replace("\n", "\r\n")`: every line feed preceded by a carriage return.
pub open spec fn to_crlf(s: Seq<char>) -> Seq<char>
    decreases s.len(),
{
    if s.len() == 0 {
        s
    } else if s[0] == '\n' {
        seq!['\r', '\n'] + to_crlf(s.drop_first())
    } else {
        seq![s[0]] + to_crlf(s.drop_first())
    }
}

/// Normalising the line endings of a text written with `\r\n` for each
/// `\n` gives the text back, when it had no carriage return of its own.
pub proof fn lemma_replace_crlf_undoes_to_crlf(s: Seq<char>)
    requires
        !s.contains('\r'),
    ensures
        replace_crlf(to_crlf(s)) == s,
        to_crlf(s).len() > 0 ==> (to_crlf(s)[0] == '\u{feff}' <==> s[0] == '\u{feff}'),
        s.len() > 0 <==> to_crlf(s).len() > 0,
    decreases s.len(),
{
    if s.len() > 0 {
        let rest = s.drop_first();
        assert(!rest.contains('\r')) by {
            if rest.contains('\r') {
                let k = choose|k: int| 0 <= k < rest.len() && rest[k] == '\r';
                assert(s[k + 1] == '\r');
            }
        }
        lemma_replace_crlf_undoes_to_crlf(rest);
        let t = to_crlf(rest);
        if s[0] == '\n' {
            let u = seq!['\r', '\n'] + t;
            assert(u.skip(2) =~= t);
            assert(replace_crlf(u) == seq!['\n'] + replace_crlf(u.skip(2)));
            assert(seq!['\n'] + rest =~= s);
        } else {
            let u = seq![s[0]] + t;
            assert(s[0] != '\r');
            assert(u.drop_first() =~= t);
            assert(replace_crlf(u) == seq![s[0]] + replace_crlf(u.drop_first()));
            assert(seq![s[0]] + rest =~= s);
        }
    }
}

/// `[T]::join` with a separator sequence.
pub open spec fn join(parts: Seq<Seq<char>>, sep: Seq<char>) -> Seq<char>
    decreases parts.len(),
{
    if parts.len() == 0 {
        Seq::empty()
    } else if parts.len() == 1 {
        parts[0]
    } else {
        join(parts.drop_last(), sep) + sep + parts.last()
    }
}

pub open spec fn starts_with(s: Seq<char>, prefix: Seq<char>) -> bool {
    prefix.len() <= s.len() && s.take(prefix.len() as int) == prefix
}

pub proof fn lemma_split_acc_nonempty(s: Seq<char>, c: char, cur: Seq<char>)
    ensures
        split_acc(s, c, cur).len() >= 1,
    decreases s.len(),
{
    if s.len() > 0 {
        if s[0] == c {
            lemma_split_acc_nonempty(s.drop_first(), c, Seq::empty());
        } else {
            lemma_split_acc_nonempty(s.drop_first(), c, cur.push(s[0]));
        }
    }
}

/// Whitespace test of one character.
pub fn char_is_ws(c: char) -> (r: bool)
    ensures
        r == is_ws(c),
{
    ('\u{9}' <= c && c <= '\u{d}') || c == ' ' || c == '\u{85}' || c == '\u{a0}' || c
        == '\u{1680}' || ('\u{2000}' <= c && c <= '\u{200a}') || c == '\u{2028}' || c
        == '\u{2029}' || c == '\u{202f}' || c == '\u{205f}' || c == '\u{3000}'
}

/// Collects the characters of `s` in order.
pub fn chars_of(s: &str) -> (r: Vec<char>)
    ensures
        r@ == s@,
{
    let mut r: Vec<char> = Vec::new();
    for c in it: s.chars()
        invariant
            it.seq() == s@,
            r@ == it.seq().take(it.index()),
    {
        r.push(c);
    }
    r
}

/// Appends one character to a string.
#[verifier::external_body]
pub(crate) fn push_char(s: &mut String, c: char)
    ensures
        final(s)@ == old(s)@.push(c),
{
    s.push(c);
}

/// Appends the characters of `t` to `s`.
pub fn append_chars(s: &mut String, t: &Vec<char>)
    ensures
        final(s)@ == old(s)@ + t@,
{
    let mut i: usize = 0;
    while i < t.len()
        invariant
            i <= t.len(),
            s@ == old(s)@ + t@.take(i as int),
        decreases t.len() - i,
    {
        push_char(s, t[i]);
        assert(t@.take(i + 1) == t@.take(i as int).push(t@[i as int]));
        i += 1;
    }
    assert(t@.take(t@.len() as int) == t@);
}

/// Appends `t` to `s`.
pub fn append_str(s: &mut String, t: &str)
    ensures
        final(s)@ == old(s)@ + t@,
{
    let v = chars_of(t);
    append_chars(s, &v);
}

/// Builds a `String` from `v[lo..hi]`.
pub fn string_of(v: &Vec<char>, lo: usize, hi: usize) -> (r: String)
    requires
        lo <= hi <= v.len(),
    ensures
        r@ == v@.subrange(lo as int, hi as int),
{
    let mut r = String::new();
    let mut i: usize = lo;
    while i < hi
        invariant
            lo <= i <= hi <= v.len(),
            r@ == v@.subrange(lo as int, i as int),
        decreases hi - i,
    {
        push_char(&mut r, v[i]);
        assert(v@.subrange(lo as int, i + 1) == v@.subrange(lo as int, i as int).push(v@[i as int]));
        i += 1;
    }
    r
}

/// Builds a `String` holding exactly the characters of `v`.
pub fn string_of_all(v: &Vec<char>) -> (r: String)
    ensures
        r@ == v@,
{
    let r = string_of(v, 0, v.len());
    assert(v@.subrange(0, v@.len() as int) == v@);
    r
}

/// Copies `v[lo..hi]` into a new vector.
pub fn slice_of(v: &Vec<char>, lo: usize, hi: usize) -> (r: Vec<char>)
    requires
        lo <= hi <= v.len(),
    ensures
        r@ == v@.subrange(lo as int, hi as int),
{
    let mut r: Vec<char> = Vec::new();
    let mut i: usize = lo;
    while i < hi
        invariant
            lo <= i <= hi <= v.len(),
            r@ == v@.subrange(lo as int, i as int),
        decreases hi - i,
    {
        r.push(v[i]);
        assert(v@.subrange(lo as int, i + 1) == v@.subrange(lo as int, i as int).push(v@[i as int]));
        i += 1;
    }
    r
}

/// Whether two character vectors are equal.
pub fn chars_eq(a: &Vec<char>, b: &Vec<char>) -> (r: bool)
    ensures
        r == (a@ == b@),
{
    if a.len() != b.len() {
        return false;
    }
    let mut i: usize = 0;
    while i < a.len()
        invariant
            a.len() == b.len(),
            i <= a.len(),
            forall|j: int| 0 <= j < i ==> a@[j] == b@[j],
        decreases a.len() - i,
    {
        if a[i] != b[i] {
            return false;
        }
        i += 1;
    }
    assert(a@ =~= b@);
    true
}

/// Whether two strings hold the same characters.
pub fn str_eq(a: &str, b: &str) -> (r: bool)
    ensures
        r == (a@ == b@),
{
    let x = chars_of(a);
    let y = chars_of(b);
    chars_eq(&x, &y)
}

/// Whether `s` starts with `prefix`.
pub fn chars_start_with(s: &Vec<char>, prefix: &Vec<char>) -> (r: bool)
    ensures
        r == starts_with(s@, prefix@),
{
    if prefix.len() > s.len() {
        return false;
    }
    let mut i: usize = 0;
    while i < prefix.len()
        invariant
            prefix.len() <= s.len(),
            i <= prefix.len(),
            forall|j: int| 0 <= j < i ==> s@[j] == prefix@[j],
        decreases prefix.len() - i,
    {
        if s[i] != prefix[i] {
            assert(s@.take(prefix.len() as int)[i as int] != prefix@[i as int]);
            return false;
        }
        i += 1;
    }
    assert(s@.take(prefix.len() as int) =~= prefix@);
    true
}

/// Whether every character of `s` is whitespace.
pub fn chars_blank(s: &Vec<char>) -> (r: bool)
    ensures
        r == is_blank(s@),
{
    let mut i: usize = 0;
    while i < s.len()
        invariant
            i <= s.len(),
            forall|j: int| 0 <= j < i ==> is_ws(#[trigger] s@[j]),
        decreases s.len() - i,
    {
        if !char_is_ws(s[i]) {
            return false;
        }
        i += 1;
    }
    true
}

pub proof fn lemma_trim_start_blank(s: Seq<char>)
    ensures
        trim_start(s).len() == 0 <==> is_blank(s),
        trim_start(s).len() > 0 ==> !is_ws(trim_start(s)[0]),
        trim_start(s).len() <= s.len(),
        trim_start(s) == s.skip(s.len() - trim_start(s).len()),
    decreases s.len(),
{
    if s.len() > 0 && is_ws(s[0]) {
        lemma_trim_start_blank(s.drop_first());
        let t = s.drop_first();
        if is_blank(t) {
            assert(is_blank(s)) by {
                assert forall|i: int| 0 <= i < s.len() implies is_ws(#[trigger] s[i]) by {
                    if i > 0 {
                        assert(s[i] == t[i - 1]);
                    }
                }
            }
        }
        if is_blank(s) {
            assert forall|i: int| 0 <= i < t.len() implies is_ws(#[trigger] t[i]) by {
                assert(t[i] == s[i + 1]);
            }
        }
        assert(t.skip(t.len() - trim_start(t).len()) =~= s.skip(s.len() - trim_start(t).len()));
    } else {
        if s.len() > 0 {
            assert(!is_ws(s[0]));
        }
        assert(s.skip(0) =~= s);
    }
}

pub proof fn lemma_trim_end_shape(s: Seq<char>)
    ensures
        trim_end(s).len() <= s.len(),
        trim_end(s) == s.take(trim_end(s).len() as int),
        trim_end(s).len() > 0 ==> !is_ws(trim_end(s).last()),
        trim_end(s).len() == 0 <==> is_blank(s),
    decreases s.len(),
{
    if s.len() > 0 && is_ws(s.last()) {
        let t = s.drop_last();
        lemma_trim_end_shape(t);
        assert(t.take(trim_end(t).len() as int) =~= s.take(trim_end(t).len() as int));
        if is_blank(t) {
            assert forall|i: int| 0 <= i < s.len() implies is_ws(#[trigger] s[i]) by {
                if i < t.len() {
                    assert(s[i] == t[i]);
                }
            }
        }
        if is_blank(s) {
            assert forall|i: int| 0 <= i < t.len() implies is_ws(#[trigger] t[i]) by {
                assert(t[i] == s[i]);
            }
        }
    } else {
        assert(s.take(s.len() as int) =~= s);
        if s.len() > 0 {
            assert(!is_blank(s)) by {
                assert(!is_ws(s[s.len() - 1]));
            }
        }
    }
}

/// The bounds of `trim(v[lo..hi])` inside `v`.
pub fn trim_bounds(v: &Vec<char>, lo: usize, hi: usize) -> (r: (usize, usize))
    requires
        lo <= hi <= v.len(),
    ensures
        lo <= r.0 <= r.1 <= hi,
        v@.subrange(r.0 as int, r.1 as int) == trim(v@.subrange(lo as int, hi as int)),
{
    let ghost s = v@.subrange(lo as int, hi as int);
    let mut a: usize = lo;
    while a < hi && char_is_ws(v[a])
        invariant
            lo <= a <= hi <= v.len(),
            s == v@.subrange(lo as int, hi as int),
            trim_start(v@.subrange(a as int, hi as int)) == trim_start(s),
        decreases hi - a,
    {
        assert(v@.subrange(a as int, hi as int).drop_first() =~= v@.subrange(a + 1, hi as int));
        a += 1;
    }
    proof {
        if a < hi {
            assert(v@.subrange(a as int, hi as int)[0] == v@[a as int]);
        }
        assert(trim_start(v@.subrange(a as int, hi as int)) == v@.subrange(a as int, hi as int));
    }
    let mut b: usize = hi;
    while b > a && char_is_ws(v[b - 1])
        invariant
            lo <= a <= b <= hi <= v.len(),
            trim_end(v@.subrange(a as int, b as int)) == trim(s),
        decreases b - a,
    {
        assert(v@.subrange(a as int, b as int).drop_last() =~= v@.subrange(a as int, b - 1));
        b -= 1;
    }
    proof {
        if b > a {
            assert(v@.subrange(a as int, b as int).last() == v@[b - 1]);
        }
    }
    (a, b)
}

/// `str::trim` of a whole string.
pub fn trim_string(s: &str) -> (r: String)
    ensures
        r@ == trim(s@),
{
    let v = chars_of(s);
    let (a, b) = trim_bounds(&v, 0, v.len());
    assert(v@.subrange(0, v@.len() as int) =~= v@);
    string_of(&v, a, b)
}

/// `str::trim_end_matches` with one character, on `v[lo..hi]`; returns the new end.
pub fn trim_end_char_bound(v: &Vec<char>, lo: usize, hi: usize, c: char) -> (r: usize)
    requires
        lo <= hi <= v.len(),
    ensures
        lo <= r <= hi,
        v@.subrange(lo as int, r as int) == trim_end_char(v@.subrange(lo as int, hi as int), c),
{
    let mut b: usize = hi;
    while b > lo && v[b - 1] == c
        invariant
            lo <= b <= hi <= v.len(),
            trim_end_char(v@.subrange(lo as int, b as int), c) == trim_end_char(
                v@.subrange(lo as int, hi as int),
                c,
            ),
        decreases b - lo,
    {
        assert(v@.subrange(lo as int, b as int).drop_last() =~= v@.subrange(lo as int, b - 1));
        b -= 1;
    }
    proof {
        if b > lo {
            assert(v@.subrange(lo as int, b as int).last() == v@[b - 1]);
        }
    }
    b
}

/// The character sequences held by a vector of character vectors.
pub open spec fn views(v: Seq<Vec<char>>) -> Seq<Seq<char>> {
    v.map_values(|x: Vec<char>| x@)
}

/// `str::lines`, as character vectors.
pub fn lines_vec(s: &Vec<char>) -> (r: Vec<Vec<char>>)
    ensures
        views(r@) == lines_of(s@),
{
    let mut out: Vec<Vec<char>> = Vec::new();
    let mut st: usize = 0;
    let mut i: usize = 0;
    let ghost mut raw: Seq<Seq<char>> = Seq::empty();
    assert(s@.skip(0) =~= s@);
    assert(s@.subrange(0, 0) =~= Seq::<char>::empty());
    while i < s.len()
        invariant
            st <= i <= s.len(),
            split_char(s@, '\n') == raw + split_acc(
                s@.skip(i as int),
                '\n',
                s@.subrange(st as int, i as int),
            ),
            views(out@) == raw.map_values(|l: Seq<char>| strip_cr(l)),
        decreases s.len() - i,
    {
        let ghost cur = s@.subrange(st as int, i as int);
        assert(s@.skip(i as int)[0] == s@[i as int]);
        assert(s@.skip(i as int).drop_first() =~= s@.skip(i + 1));
        if s[i] == '\n' {
            let e = if i > st && s[i - 1] == '\r' { i - 1 } else { i };
            let piece = slice_of(s, st, e);
            assert(piece@ == strip_cr(cur)) by {
                if i > st && s@[i - 1] == '\r' {
                    assert(cur.drop_last() =~= s@.subrange(st as int, i - 1));
                }
            }
            let ghost old_out = out@;
            out.push(piece);
            proof {
                assert(views(out@) =~= views(old_out).push(strip_cr(cur)));
                assert(split_acc(s@.skip(i as int), '\n', cur) == seq![cur] + split_acc(
                    s@.skip(i + 1),
                    '\n',
                    Seq::empty(),
                ));
                assert(raw + (seq![cur] + split_acc(s@.skip(i + 1), '\n', Seq::empty())) =~= raw.push(cur)
                    + split_acc(s@.skip(i + 1), '\n', Seq::empty()));
                raw = raw.push(cur);
                assert(views(out@) =~= raw.map_values(|l: Seq<char>| strip_cr(l)));
                assert(s@.subrange(i + 1, i + 1) =~= Seq::<char>::empty());
            }
            st = i + 1;
        } else {
            proof {
                assert(s@.subrange(st as int, i + 1) =~= cur.push(s@[i as int]));
            }
        }
        i += 1;
    }
    let ghost cur = s@.subrange(st as int, i as int);
    proof {
        assert(s@.skip(i as int) =~= Seq::<char>::empty());
        assert(split_char(s@, '\n') =~= raw.push(cur));
        assert(split_char(s@, '\n').drop_last() =~= raw);
    }
    if st < i {
        let piece = slice_of(s, st, i);
        let ghost old_out = out@;
        out.push(piece);
        assert(views(out@) =~= views(old_out).push(cur));
        proof {
            assert(views(out@) =~= raw.map_values(|l: Seq<char>| strip_cr(l)).push(cur));
        }
    }
    out
}

/// `str::replace("\r\n", "\n")`, as characters.
pub fn replace_crlf_vec(s: &Vec<char>) -> (r: Vec<char>)
    ensures
        r@ == replace_crlf(s@),
{
    let mut out: Vec<char> = Vec::new();
    let mut i: usize = 0;
    assert(s@.skip(0) =~= s@);
    while i < s.len()
        invariant
            i <= s.len(),
            replace_crlf(s@) == out@ + replace_crlf(s@.skip(i as int)),
        decreases s.len() - i,
    {
        let ghost t = s@.skip(i as int);
        if i + 1 < s.len() && s[i] == '\r' && s[i + 1] == '\n' {
            assert(t.skip(2) =~= s@.skip(i + 2));
            assert(replace_crlf(t) == seq!['\n'] + replace_crlf(s@.skip(i + 2)));
            out.push('\n');
            i += 2;
        } else {
            assert(t.drop_first() =~= s@.skip(i + 1));
            assert(replace_crlf(t) == seq![s@[i as int]] + replace_crlf(s@.skip(i + 1)));
            out.push(s[i]);
            i += 1;
        }
        assert(replace_crlf(s@) =~= out@ + replace_crlf(s@.skip(i as int)));
    }
    assert(s@.skip(i as int) =~= Seq::<char>::empty());
    assert(out@ + Seq::<char>::empty() =~= out@);
    out
}

/// `str::split(c)`, as character vectors.
pub fn split_vec(s: &Vec<char>, c: char) -> (r: Vec<Vec<char>>)
    ensures
        views(r@) == split_char(s@, c),
        r.len() >= 1,
{
    let mut out: Vec<Vec<char>> = Vec::new();
    let mut st: usize = 0;
    let mut i: usize = 0;
    assert(s@.skip(0) =~= s@);
    assert(s@.subrange(0, 0) =~= Seq::<char>::empty());
    while i < s.len()
        invariant
            st <= i <= s.len(),
            split_char(s@, c) == views(out@) + split_acc(
                s@.skip(i as int),
                c,
                s@.subrange(st as int, i as int),
            ),
        decreases s.len() - i,
    {
        let ghost cur = s@.subrange(st as int, i as int);
        assert(s@.skip(i as int)[0] == s@[i as int]);
        assert(s@.skip(i as int).drop_first() =~= s@.skip(i + 1));
        if s[i] == c {
            let piece = slice_of(s, st, i);
            let ghost old_out = out@;
            out.push(piece);
            proof {
                assert(views(out@) =~= views(old_out).push(cur));
                assert(views(old_out) + (seq![cur] + split_acc(s@.skip(i + 1), c, Seq::empty()))
                    =~= views(out@) + split_acc(s@.skip(i + 1), c, Seq::empty()));
                assert(s@.subrange(i + 1, i + 1) =~= Seq::<char>::empty());
            }
            st = i + 1;
        } else {
            proof {
                assert(s@.subrange(st as int, i + 1) =~= cur.push(s@[i as int]));
            }
        }
        i += 1;
    }
    let piece = slice_of(s, st, i);
    let ghost old_out = out@;
    out.push(piece);
    proof {
        assert(s@.skip(i as int) =~= Seq::<char>::empty());
        assert(views(out@) =~= views(old_out).push(piece@));
        assert(split_char(s@, c) =~= views(out@));
    }
    out
}

/// `str::split_terminator(c)`, as character vectors.
pub fn split_terminator_vec(s: &Vec<char>, c: char) -> (r: Vec<Vec<char>>)
    ensures
        views(r@) == split_terminator(s@, c),
{
    let mut parts = split_vec(s, c);
    let last = parts.len() - 1;
    if parts[last].len() == 0 {
        let ghost before = parts@;
        parts.pop();
        proof {
            assert(views(parts@) =~= views(before).drop_last());
        }
    }
    parts
}

pub proof fn lemma_join_push(parts: Seq<Seq<char>>, p: Seq<char>, sep: Seq<char>)
    ensures
        join(parts.push(p), sep) == if parts.len() == 0 { p } else { join(parts, sep) + sep + p },
{
    assert(parts.push(p).drop_last() =~= parts);
}

/// `parts[lo..hi].join(sep)`.
pub fn join_vec(parts: &Vec<Vec<char>>, lo: usize, hi: usize, sep: char) -> (r: Vec<char>)
    requires
        lo <= hi <= parts.len(),
    ensures
        r@ == join(views(parts@).subrange(lo as int, hi as int), seq![sep]),
{
    let mut out: Vec<char> = Vec::new();
    let mut i: usize = lo;
    while i < hi
        invariant
            lo <= i <= hi <= parts.len(),
            out@ == join(views(parts@).subrange(lo as int, i as int), seq![sep]),
        decreases hi - i,
    {
        let ghost before = out@;
        if i > lo {
            out.push(sep);
        }
        let piece = &parts[i];
        let mut j: usize = 0;
        let ghost mid = out@;
        while j < piece.len()
            invariant
                j <= piece.len(),
                out@ == mid + piece@.take(j as int),
            decreases piece.len() - j,
        {
            out.push(piece[j]);
            assert(piece@.take(j + 1) =~= piece@.take(j as int).push(piece@[j as int]));
            j += 1;
        }
        proof {
            assert(piece@.take(piece@.len() as int) =~= piece@);
            let vs = views(parts@);
            assert(vs.subrange(lo as int, i + 1) =~= vs.subrange(lo as int, i as int).push(piece@));
            lemma_join_push(vs.subrange(lo as int, i as int), piece@, seq![sep]);
            if i > lo {
                assert(mid =~= before + seq![sep]);
            } else {
                assert(before =~= Seq::<char>::empty());
            }
        }
        i += 1;
    }
    out
}

/// `a` orders before `b` as Rust orders strings: character by character,
/// a proper prefix first.
pub open spec fn text_lt(a: Seq<char>, b: Seq<char>) -> bool
    decreases a.len(),
{
    if a.len() == 0 {
        b.len() > 0
    } else if b.len() == 0 {
        false
    } else if a[0] != b[0] {
        (a[0] as int) < (b[0] as int)
    } else {
        text_lt(a.drop_first(), b.drop_first())
    }
}

/// The first index at which `p` holds.
pub open spec fn first_where(n: int, p: spec_fn(int) -> bool) -> Option<int> {
    if exists|i: int| 0 <= i < n && #[trigger] p(i) {
        Some(choose|i: int| 0 <= i < n && #[trigger] p(i) && forall|j: int| 0 <= j < i ==> !#[trigger] p(j))
    } else {
        None
    }
}

pub proof fn lemma_first_where(n: int, p: spec_fn(int) -> bool, i: int)
    requires
        0 <= i < n,
        p(i),
        forall|j: int| 0 <= j < i ==> !#[trigger] p(j),
    ensures
        first_where(n, p) == Some(i),
{
    let c = choose|c: int| 0 <= c < n && #[trigger] p(c) && forall|j: int| 0 <= j < c ==> !#[trigger] p(j);
    if c < i {
        assert(!p(c));
    }
    if i < c {
        assert(!p(i));
    }
}

pub proof fn lemma_first_where_none(n: int, p: spec_fn(int) -> bool)
    requires
        forall|j: int| 0 <= j < n ==> !#[trigger] p(j),
    ensures
        first_where(n, p) is None,
{
}

proof fn lemma_first_exists(n: int, p: spec_fn(int) -> bool, i: int)
    requires
        0 <= i < n,
        p(i),
    ensures
        exists|l: int| 0 <= l < n && #[trigger] p(l) && forall|j: int| 0 <= j < l ==> !#[trigger] p(j),
    decreases i,
{
    if exists|j: int| 0 <= j < i && #[trigger] p(j) {
        let j = choose|j: int| 0 <= j < i && #[trigger] p(j);
        lemma_first_exists(n, p, j);
    } else {
        assert(forall|j: int| 0 <= j < i ==> !#[trigger] p(j));
    }
}

/// What `first_where` finds: an index where `p` holds, after none.
pub proof fn lemma_first_where_some(n: int, p: spec_fn(int) -> bool)
    requires
        first_where(n, p) is Some,
    ensures
        0 <= first_where(n, p)->0 < n,
        p(first_where(n, p)->0),
        forall|j: int| 0 <= j < first_where(n, p)->0 ==> !#[trigger] p(j),
{
    let i = choose|i: int| 0 <= i < n && #[trigger] p(i);
    lemma_first_exists(n, p, i);
}

/// The last index below `n` at which `p` holds.
pub open spec fn last_where(n: int, p: spec_fn(int) -> bool) -> Option<int> {
    if exists|i: int| 0 <= i < n && #[trigger] p(i) {
        Some(choose|i: int| 0 <= i < n && #[trigger] p(i) && forall|j: int| i < j < n ==> !#[trigger] p(j))
    } else {
        None
    }
}

pub proof fn lemma_last_where(n: int, p: spec_fn(int) -> bool, i: int)
    requires
        0 <= i < n,
        p(i),
        forall|j: int| i < j < n ==> !#[trigger] p(j),
    ensures
        last_where(n, p) == Some(i),
{
    let c = choose|c: int| 0 <= c < n && #[trigger] p(c) && forall|j: int| c < j < n ==> !#[trigger] p(j);
    if c < i {
        assert(!p(i));
    }
    if i < c {
        assert(!p(c));
    }
}

pub proof fn lemma_last_where_none(n: int, p: spec_fn(int) -> bool)
    requires
        forall|j: int| 0 <= j < n ==> !#[trigger] p(j),
    ensures
        last_where(n, p) is None,
{
}

proof fn lemma_last_exists(n: int, p: spec_fn(int) -> bool, i: int)
    requires
        0 <= i < n,
        p(i),
    ensures
        exists|l: int| 0 <= l < n && #[trigger] p(l) && forall|j: int| l < j < n ==> !#[trigger] p(j),
    decreases n - i,
{
    if exists|j: int| i < j < n && #[trigger] p(j) {
        let j = choose|j: int| i < j < n && #[trigger] p(j);
        lemma_last_exists(n, p, j);
    } else {
        assert(forall|j: int| i < j < n ==> !#[trigger] p(j));
    }
}

/// What `last_where` finds: an index where `p` holds, with none after it.
pub proof fn lemma_last_where_some(n: int, p: spec_fn(int) -> bool)
    requires
        last_where(n, p) is Some,
    ensures
        0 <= last_where(n, p)->0 < n,
        p(last_where(n, p)->0),
        forall|j: int| last_where(n, p)->0 < j < n ==> !#[trigger] p(j),
{
    let i = choose|i: int| 0 <= i < n && #[trigger] p(i);
    lemma_last_exists(n, p, i);
}

pub open spec fn digit(d: int) -> char {
    if d == 0 {
        '0'
    } else if d == 1 {
        '1'
    } else if d == 2 {
        '2'
    } else if d == 3 {
        '3'
    } else if d == 4 {
        '4'
    } else if d == 5 {
        '5'
    } else if d == 6 {
        '6'
    } else if d == 7 {
        '7'
    } else if d == 8 {
        '8'
    } else {
        '9'
    }
}

/// The decimal digits of `n`, most significant first.
pub open spec fn decimal(n: nat) -> Seq<char>
    decreases n,
{
    if n < 10 {
        seq![digit(n as int)]
    } else {
        decimal(n / 10).push(digit((n % 10) as int))
    }
}

fn digit_char(d: u64) -> (r: char)
    requires
        d < 10,
    ensures
        r == digit(d as int),
{
    if d == 0 {
        '0'
    } else if d == 1 {
        '1'
    } else if d == 2 {
        '2'
    } else if d == 3 {
        '3'
    } else if d == 4 {
        '4'
    } else if d == 5 {
        '5'
    } else if d == 6 {
        '6'
    } else if d == 7 {
        '7'
    } else if d == 8 {
        '8'
    } else {
        '9'
    }
}

/// `n` written in decimal.
pub fn decimal_string(n: u64) -> (r: String)
    ensures
        r@ == decimal(n as nat),
    decreases n,
{
    if n < 10 {
        let mut s = String::new();
        push_char(&mut s, digit_char(n));
        assert(s@ =~= seq![digit(n as int)]);
        s
    } else {
        let mut s = decimal_string(n / 10);
        push_char(&mut s, digit_char(n % 10));
        s
    }
}

/// A lowercase hexadecimal digit.
pub open spec fn hex_digit(d: int) -> char {
    seq!['0', '1', '2', '3', '4', '5', '6', '7', '8', '9', 'a', 'b', 'c', 'd', 'e', 'f'][d]
}

/// `n` (below 256) in lowercase hexadecimal, without leading zeros.
pub open spec fn hex_small(n: int) -> Seq<char> {
    if n < 16 {
        seq![hex_digit(n)]
    } else {
        seq![hex_digit(n / 16), hex_digit(n % 16)]
    }
}

/// What `char::escape_debug` writes for `c`: the character itself, or an
/// escape for characters that are not printable or that extend a grapheme
/// (decided by Unicode tables), and for quotes, backslash and the common
/// control characters.
pub uninterp spec fn debug_escaped(c: char) -> Seq<char>;

/// `char::escape_debug` (std), collected into a string.
#[verifier::external_body]
fn escape_debug_text(c: char) -> (r: String)
    ensures
        r@ == debug_escaped(c),
{
    c.escape_debug().to_string()
}

/// How `{:?}` escapes one character inside a string literal: backslash,
/// double quote and the common control characters by their short escapes;
/// other ASCII control characters as `\u{..}` in hexadecimal; printable
/// ASCII (the single quote included) as itself; any other character as
/// `char::escape_debug` does, which for these is what `{:?}` writes.
pub open spec fn escape_char(c: char) -> Seq<char> {
    if c == '\\' {
        seq!['\\', '\\']
    } else if c == '"' {
        seq!['\\', '"']
    } else if c == '\n' {
        seq!['\\', 'n']
    } else if c == '\r' {
        seq!['\\', 'r']
    } else if c == '\t' {
        seq!['\\', 't']
    } else if c == '\0' {
        seq!['\\', '0']
    } else if (c as int) < 0x20 || (c as int) == 0x7f {
        seq!['\\', 'u', '{'] + hex_small(c as int) + seq!['}']
    } else if (c as int) < 0x80 {
        seq![c]
    } else {
        debug_escaped(c)
    }
}

fn hex_digit_char(d: u32) -> (r: char)
    requires
        d < 16,
    ensures
        r == hex_digit(d as int),
{
    let table: Vec<char> = vec!['0', '1', '2', '3', '4', '5', '6', '7', '8', '9', 'a', 'b', 'c', 'd', 'e', 'f'];
    assert(table@ =~= seq!['0', '1', '2', '3', '4', '5', '6', '7', '8', '9', 'a', 'b', 'c', 'd', 'e', 'f']);
    table[d as usize]
}

/// Appends `escape_char(c)` to `out`.
fn push_escaped(out: &mut String, c: char)
    ensures
        final(out)@ == old(out)@ + escape_char(c),
{
    let code = c as u32;
    if c == '\\' {
        push_char(out, '\\');
        push_char(out, '\\');
    } else if c == '"' {
        push_char(out, '\\');
        push_char(out, '"');
    } else if c == '\n' {
        push_char(out, '\\');
        push_char(out, 'n');
    } else if c == '\r' {
        push_char(out, '\\');
        push_char(out, 'r');
    } else if c == '\t' {
        push_char(out, '\\');
        push_char(out, 't');
    } else if c == '\0' {
        push_char(out, '\\');
        push_char(out, '0');
    } else if code < 0x20 || code == 0x7f {
        push_char(out, '\\');
        push_char(out, 'u');
        push_char(out, '{');
        if code >= 16 {
            push_char(out, hex_digit_char(code / 16));
            push_char(out, hex_digit_char(code % 16));
        } else {
            push_char(out, hex_digit_char(code));
        }
        push_char(out, '}');
    } else if code < 0x80 {
        push_char(out, c);
    } else {
        let e = escape_debug_text(c);
        append_str(out, e.as_str());
    }
}

pub open spec fn escaped(s: Seq<char>) -> Seq<char>
    decreases s.len(),
{
    if s.len() == 0 {
        Seq::empty()
    } else {
        escaped(s.drop_last()) + escape_char(s.last())
    }
}

/// `s` in double quotes, escaped.
pub open spec fn quoted(s: Seq<char>) -> Seq<char> {
    seq!['"'] + escaped(s) + seq!['"']
}

/// `s` as `{:?}` writes it.
pub fn quote(s: &str) -> (r: String)
    ensures
        r@ == quoted(s@),
{
    let v = chars_of(s);
    let mut out = String::new();
    push_char(&mut out, '"');
    let mut i: usize = 0;
    while i < v.len()
        invariant
            i <= v.len(),
            out@ == seq!['"'] + escaped(v@.take(i as int)),
        decreases v.len() - i,
    {
        let c = v[i];
        let ghost before = out@;
        push_escaped(&mut out, c);
        assert(v@.take(i + 1).drop_last() =~= v@.take(i as int));
        assert(v@.take(i + 1).last() == c);
        assert(out@ =~= before + escape_char(c));
        i += 1;
    }
    assert(v@.take(i as int) =~= v@);
    push_char(&mut out, '"');
    out
}

pub open spec fn string_views(v: Seq<String>) -> Seq<Seq<char>> {
    v.map_values(|s: String| s@)
}

/// The strings of `parts` with `sep` between them.
pub fn join_strings(parts: &Vec<String>, sep: &str) -> (r: String)
    ensures
        r@ == join(string_views(parts@), sep@),
{
    let ghost ps = string_views(parts@);
    let mut out = String::new();
    let mut i: usize = 0;
    while i < parts.len()
        invariant
            ps == string_views(parts@),
            i <= parts.len(),
            out@ == join(ps.take(i as int), sep@),
        decreases parts.len() - i,
    {
        let ghost before = out@;
        if i > 0 {
            append_str(&mut out, sep);
        }
        append_str(&mut out, parts[i].as_str());
        proof {
            let t = ps.take(i + 1);
            assert(t.drop_last() =~= ps.take(i as int));
            assert(t.last() == parts@[i as int]@);
            if i == 0 {
                assert(before =~= Seq::<char>::empty());
                assert(out@ =~= t[0]);
            }
        }
        i += 1;
    }
    assert(ps.take(i as int) =~= ps);
    out
}

} // verus!
