//! Character-level text operations with exact specifications.

use vstd::prelude::*;

verus! {

/// The Unicode `White_Space` property (PropList.txt), which is what
/// `char::is_whitespace`, `str::trim` and `str::split_whitespace` use.
pub open spec fn is_white_space(c: char) -> bool {
    let n = c as u32;
    ||| (0x9 <= n && n <= 0xd)
    ||| n == 0x20
    ||| n == 0x85
    ||| n == 0xa0
    ||| n == 0x1680
    ||| (0x2000 <= n && n <= 0x200a)
    ||| n == 0x2028
    ||| n == 0x2029
    ||| n == 0x202f
    ||| n == 0x205f
    ||| n == 0x3000
}

/// Executable check of the Unicode `White_Space` property.
pub fn char_is_white_space(c: char) -> (r: bool)
    ensures
        r == is_white_space(c),
{
    let n = c as u32;
    (0x9 <= n && n <= 0xd) || n == 0x20 || n == 0x85 || n == 0xa0 || n == 0x1680 || (0x2000
        <= n && n <= 0x200a) || n == 0x2028 || n == 0x2029 || n == 0x202f || n == 0x205f || n
        == 0x3000
}

/// `s` without its leading white space.
pub open spec fn trim_start(s: Seq<char>) -> Seq<char>
    decreases s.len(),
{
    if s.len() > 0 && is_white_space(s[0]) {
        trim_start(s.drop_first())
    } else {
        s
    }
}

/// `s` without its trailing white space.
pub open spec fn trim_end(s: Seq<char>) -> Seq<char>
    decreases s.len(),
{
    if s.len() > 0 && is_white_space(s.last()) {
        trim_end(s.drop_last())
    } else {
        s
    }
}

/// `s` without leading and trailing white space, as `str::trim` gives it.
pub open spec fn trim(s: Seq<char>) -> Seq<char> {
    trim_end(trim_start(s))
}

/// Whether `s` holds only white space (or nothing).
pub open spec fn is_blank(s: Seq<char>) -> bool {
    trim(s).len() == 0
}

proof fn lemma_trim_start_skip(s: Seq<char>, i: int)
    requires
        0 <= i <= s.len(),
        forall|k: int| 0 <= k < i ==> is_white_space(#[trigger] s[k]),
    ensures
        trim_start(s) == trim_start(s.subrange(i, s.len() as int)),
    decreases i,
{
    if i > 0 {
        assert(s.drop_first() =~= s.subrange(1, s.len() as int));
        lemma_trim_start_skip(s.drop_first(), i - 1);
        assert(s.drop_first().subrange(i - 1, s.drop_first().len() as int) =~= s.subrange(
            i,
            s.len() as int,
        ));
    } else {
        assert(s.subrange(0, s.len() as int) =~= s);
    }
}

proof fn lemma_trim_end_skip(s: Seq<char>, j: int)
    requires
        0 <= j <= s.len(),
        forall|k: int| j <= k < s.len() ==> is_white_space(#[trigger] s[k]),
    ensures
        trim_end(s) == trim_end(s.subrange(0, j)),
    decreases s.len() - j,
{
    if j < s.len() {
        assert(s.drop_last() =~= s.subrange(0, s.len() - 1));
        lemma_trim_end_skip(s.drop_last(), j);
        assert(s.drop_last().subrange(0, j) =~= s.subrange(0, j));
    } else {
        assert(s.subrange(0, j) =~= s);
    }
}

proof fn lemma_trim_start_head(s: Seq<char>)
    ensures
        trim_start(s).len() == 0 || !is_white_space(trim_start(s)[0]),
    decreases s.len(),
{
    if s.len() > 0 && is_white_space(s[0]) {
        lemma_trim_start_head(s.drop_first());
    }
}

proof fn lemma_trim_end_shape(s: Seq<char>)
    ensures
        trim_end(s).len() <= s.len(),
        trim_end(s) == s.take(trim_end(s).len() as int),
        trim_end(s).len() == 0 || !is_white_space(trim_end(s).last()),
    decreases s.len(),
{
    if s.len() > 0 && is_white_space(s.last()) {
        lemma_trim_end_shape(s.drop_last());
        assert(s.drop_last().take(trim_end(s).len() as int) =~= s.take(trim_end(s).len() as int));
    } else {
        assert(s.take(s.len() as int) =~= s);
    }
}

/// Whether every character of `s` is white space.
pub open spec fn all_white_space(s: Seq<char>) -> bool {
    forall|k: int| 0 <= k < s.len() ==> is_white_space(#[trigger] s[k])
}

proof fn lemma_trim_start_concat(s: Seq<char>, t: Seq<char>)
    ensures
        trim_start(s + t) == if trim_start(s).len() > 0 {
            trim_start(s) + t
        } else {
            trim_start(t)
        },
    decreases s.len(),
{
    if s.len() == 0 {
        assert(s + t =~= t);
    } else {
        assert((s + t)[0] == s[0]);
        if is_white_space(s[0]) {
            assert((s + t).drop_first() =~= s.drop_first() + t);
            lemma_trim_start_concat(s.drop_first(), t);
        }
    }
}

/// White space added before and after a text does not change what trimming
/// gives.
pub proof fn trim_ignores_white_padding(pre: Seq<char>, s: Seq<char>, suf: Seq<char>)
    requires
        all_white_space(pre),
        all_white_space(suf),
    ensures
        trim(pre + s + suf) == trim(s),
{
    let x = pre + s + suf;
    assert forall|k: int| 0 <= k < pre.len() implies is_white_space(#[trigger] x[k]) by {
        assert(x[k] == pre[k]);
    }
    lemma_trim_start_skip(x, pre.len() as int);
    assert(x.subrange(pre.len() as int, x.len() as int) =~= s + suf);
    lemma_trim_start_concat(s, suf);
    if trim_start(s).len() > 0 {
        let u = trim_start(s) + suf;
        assert forall|k: int| trim_start(s).len() <= k < u.len() implies is_white_space(#[trigger] u[k]) by {
            assert(u[k] == suf[k - trim_start(s).len()]);
        }
        lemma_trim_end_skip(u, trim_start(s).len() as int);
        assert(u.subrange(0, trim_start(s).len() as int) =~= trim_start(s));
    } else {
        lemma_trim_start_skip(suf, suf.len() as int);
        assert(suf.subrange(suf.len() as int, suf.len() as int) =~= Seq::<char>::empty());
        assert(trim_start(suf) =~= Seq::<char>::empty());
        assert(trim_start(s) =~= Seq::<char>::empty());
    }
}

/// Trimming twice is trimming once: what `str::trim` returns has no white
/// space left at either end.
pub proof fn trim_is_idempotent(s: Seq<char>)
    ensures
        trim(trim(s)) == trim(s),
        trim(s).len() == 0 || (!is_white_space(trim(s)[0]) && !is_white_space(trim(s).last())),
{
    let t = trim_start(s);
    lemma_trim_start_head(s);
    lemma_trim_end_shape(t);
    let u = trim_end(t);
    if u.len() > 0 {
        assert(u[0] == t[0]);
    }
    assert(trim_start(u) == u);
    assert(trim_end(u) == u);
}

/// The part of `s` that `str::trim` keeps, as character positions.
fn trim_bounds(s: &str) -> (r: (usize, usize))
    ensures
        r.0 <= r.1 <= s@.len(),
        trim(s@) == s@.subrange(r.0 as int, r.1 as int),
{
    let n = s.unicode_len();
    let mut start: usize = 0;
    while start < n && char_is_white_space(s.get_char(start))
        invariant
            n == s@.len(),
            start <= n,
            forall|k: int| 0 <= k < start ==> is_white_space(#[trigger] s@[k]),
        decreases n - start,
    {
        start = start + 1;
    }
    proof {
        lemma_trim_start_skip(s@, start as int);
    }
    let ghost rest = s@.subrange(start as int, n as int);
    assert(trim_start(rest) == rest);
    let mut end: usize = n;
    while end > start && char_is_white_space(s.get_char(end - 1))
        invariant
            n == s@.len(),
            start <= end <= n,
            rest == s@.subrange(start as int, n as int),
            forall|k: int| end <= k < n ==> is_white_space(#[trigger] s@[k]),
        decreases end,
    {
        end = end - 1;
    }
    proof {
        assert forall|k: int| end - start <= k < rest.len() implies is_white_space(
            #[trigger] rest[k],
        ) by {
            assert(rest[k] == s@[start + k]);
        }
        lemma_trim_end_skip(rest, end - start);
        assert(rest.subrange(0, end - start) =~= s@.subrange(start as int, end as int));
    }
    (start, end)
}

/// `str::trim`: `s` without leading and trailing Unicode white space.
pub fn trim_str(s: &str) -> (r: String)
    ensures
        r@ == trim(s@),
{
    let (a, b) = trim_bounds(s);
    s.substring_char(a, b).to_owned()
}

/// Whether `s` is empty once trimmed (`s.trim().is_empty()`).
pub fn is_blank_str(s: &str) -> (r: bool)
    ensures
        r == is_blank(s@),
{
    let (a, b) = trim_bounds(s);
    a == b
}

/// What `str::to_lowercase` returns for a string: full Unicode lowercase
/// mapping, which depends on the string alone.
pub uninterp spec fn lowercase(s: Seq<char>) -> Seq<char>;

/// Calls `str::to_lowercase`; the result is the Unicode lowercase mapping of
/// `s`, named `lowercase`.
#[verifier::external_body]
pub fn to_lowercase_str(s: &str) -> (r: String)
    ensures
        r@ == lowercase(s@),
{
    s.to_lowercase()
}

/// The comparison key of a title or category: trimmed, then lower-cased
/// (`s.trim().to_lowercase()`).
pub open spec fn normalized(s: Seq<char>) -> Seq<char> {
    lowercase(trim(s))
}

/// `s.trim().to_lowercase()`.
pub fn normalize(s: &str) -> (r: String)
    ensures
        r@ == normalized(s@),
{
    let t = trim_str(s);
    to_lowercase_str(t.as_str())
}


/// Whether `sep` occurs in `s` at position `pos`.
pub open spec fn occurs_at(s: Seq<char>, pos: int, sep: Seq<char>) -> bool {
    0 <= pos && pos + sep.len() <= s.len() && s.subrange(pos, pos + sep.len()) == sep
}

/// The pieces of `s[start..]` cut at each leftmost, non-overlapping occurrence
/// of `sep` found at or after `pos` (the scan has passed `start..pos`).
pub open spec fn split_from(s: Seq<char>, sep: Seq<char>, start: int, pos: int) -> Seq<
    Seq<char>,
>
    recommends
        sep.len() > 0,
        0 <= start <= pos,
    decreases s.len() - pos,
    when sep.len() > 0 && 0 <= pos
{
    if pos + sep.len() > s.len() {
        seq![s.subrange(start, s.len() as int)]
    } else if occurs_at(s, pos, sep) {
        seq![s.subrange(start, pos)] + split_from(s, sep, pos + sep.len(), pos + sep.len())
    } else {
        split_from(s, sep, start, pos + 1)
    }
}

/// What `str::split` with a non-empty string pattern yields: the pieces between
/// the leftmost non-overlapping occurrences of `sep`, empty pieces included.
pub open spec fn split_on(s: Seq<char>, sep: Seq<char>) -> Seq<Seq<char>> {
    split_from(s, sep, 0, 0)
}

/// The views of a vector of strings.
pub open spec fn string_views(v: Seq<String>) -> Seq<Seq<char>> {
    v.map_values(|x: String| x@)
}

/// `s.split(sep)` for a non-empty separator, the pieces as owned strings.
pub fn split_str(s: &str, sep: &str) -> (r: Vec<String>)
    requires
        sep@.len() > 0,
    ensures
        string_views(r@) == split_on(s@, sep@),
{
    let n = s.unicode_len();
    let m = sep.unicode_len();
    let mut pieces: Vec<String> = Vec::new();
    let mut start: usize = 0;
    let mut pos: usize = 0;
    while m <= n && pos <= n - m
        invariant
            n == s@.len(),
            m == sep@.len(),
            m > 0,
            start <= pos <= n,
            split_on(s@, sep@) == string_views(pieces@) + split_from(
                s@,
                sep@,
                start as int,
                pos as int,
            ),
        decreases n - pos,
    {
        let mut k: usize = 0;
        let mut same = true;
        while k < m && same
            invariant
                n == s@.len(),
                m == sep@.len(),
                pos + m <= n,
                k <= m,
                same == (forall|j: int| 0 <= j < k ==> s@[pos + j] == sep@[j]),
            decreases m - k,
        {
            if s.get_char(pos + k) != sep.get_char(k) {
                same = false;
            }
            k = k + 1;
        }
        proof {
            if same {
                assert(s@.subrange(pos as int, pos + m) =~= sep@);
            } else {
                let j = choose|j: int| 0 <= j < k && s@[pos + j] != sep@[j];
                assert(s@.subrange(pos as int, pos + m)[j] != sep@[j]);
            }
        }
        if same {
            let piece = s.substring_char(start, pos).to_owned();
            let ghost before = pieces@;
            pieces.push(piece);
            proof {
                assert(string_views(pieces@) =~= string_views(before) + seq![piece@]);
            }
            pos = pos + m;
            start = pos;
        } else {
            pos = pos + 1;
        }
    }
    let last = s.substring_char(start, n).to_owned();
    let ghost before = pieces@;
    pieces.push(last);
    proof {
        assert(string_views(pieces@) =~= string_views(before) + seq![last@]);
    }
    pieces
}

/// The maximal runs of non-white-space characters of `s[start..]`, where the
/// scan has passed `start..pos` and found no white space there.
pub open spec fn words_from(s: Seq<char>, start: int, pos: int) -> Seq<Seq<char>>
    recommends
        0 <= start <= pos,
    decreases s.len() - pos,
    when 0 <= pos
{
    if pos >= s.len() {
        if start < pos {
            seq![s.subrange(start, pos)]
        } else {
            seq![]
        }
    } else if is_white_space(s[pos]) {
        (if start < pos {
            seq![s.subrange(start, pos)]
        } else {
            seq![]
        }) + words_from(s, pos + 1, pos + 1)
    } else {
        words_from(s, start, pos + 1)
    }
}

/// What `str::split_whitespace` yields: the non-empty runs of characters
/// between Unicode white space.
pub open spec fn words(s: Seq<char>) -> Seq<Seq<char>> {
    words_from(s, 0, 0)
}

/// `s.split_whitespace()`, the words as owned strings.
pub fn split_words(s: &str) -> (r: Vec<String>)
    ensures
        string_views(r@) == words(s@),
{
    let n = s.unicode_len();
    let mut out: Vec<String> = Vec::new();
    let mut start: usize = 0;
    let mut pos: usize = 0;
    while pos < n
        invariant
            n == s@.len(),
            start <= pos <= n,
            words(s@) == string_views(out@) + words_from(s@, start as int, pos as int),
        decreases n - pos,
    {
        if char_is_white_space(s.get_char(pos)) {
            if start < pos {
                let w = s.substring_char(start, pos).to_owned();
                let ghost before = out@;
                out.push(w);
                proof {
                    assert(string_views(out@) =~= string_views(before) + seq![w@]);
                }
            } else {
                assert(seq![] + words_from(s@, pos + 1, pos + 1) =~= words_from(
                    s@,
                    pos + 1,
                    pos + 1,
                ));
            }
            pos = pos + 1;
            start = pos;
        } else {
            pos = pos + 1;
        }
    }
    if start < pos {
        let w = s.substring_char(start, pos).to_owned();
        let ghost before = out@;
        out.push(w);
        proof {
            assert(string_views(out@) =~= string_views(before) + seq![w@]);
        }
    } else {
        assert(string_views(out@) + seq![] =~= string_views(out@));
    }
    out
}

/// The pieces joined with `sep` between consecutive pieces, as `[T]::join`
/// gives it.
pub open spec fn join(parts: Seq<Seq<char>>, sep: Seq<char>) -> Seq<char>
    decreases parts.len(),
{
    if parts.len() == 0 {
        seq![]
    } else if parts.len() == 1 {
        parts[0]
    } else {
        join(parts.drop_last(), sep) + sep + parts.last()
    }
}

/// `parts.join(sep)`.
pub fn join_strings(parts: &Vec<String>, sep: &str) -> (r: String)
    ensures
        r@ == join(string_views(parts@), sep@),
{
    let mut out = String::new();
    let mut i: usize = 0;
    while i < parts.len()
        invariant
            i <= parts.len(),
            out@ == join(string_views(parts@).take(i as int), sep@),
        decreases parts.len() - i,
    {
        proof {
            let t = string_views(parts@).take(i + 1);
            assert(t.drop_last() =~= string_views(parts@).take(i as int));
            assert(t.last() == parts@[i as int]@);
        }
        if i != 0 {
            out.append(sep);
        } else {
            assert(string_views(parts@).take(1) =~= seq![parts@[0]@]);
            assert(out@ + parts@[0]@ =~= parts@[0]@);
        }
        out.append(parts[i].as_str());
        i = i + 1;
    }
    assert(string_views(parts@).take(parts.len() as int) =~= string_views(parts@));
    out
}


/// Character-wise equality of two strings.
pub fn same_text(a: &str, b: &str) -> (r: bool)
    ensures
        r == (a@ == b@),
{
    let n = a.unicode_len();
    let m = b.unicode_len();
    if n != m {
        return false;
    }
    let mut i: usize = 0;
    while i < n
        invariant
            n == a@.len(),
            m == b@.len(),
            n == m,
            i <= n,
            forall|k: int| 0 <= k < i ==> a@[k] == b@[k],
        decreases n - i,
    {
        if a.get_char(i) != b.get_char(i) {
            return false;
        }
        i = i + 1;
    }
    assert(a@ =~= b@);
    true
}

/// Whether `sub` occurs somewhere in `s`, as `str::contains` decides it for a
/// string pattern.
pub open spec fn contains_text(s: Seq<char>, sub: Seq<char>) -> bool {
    exists|p: int| occurs_at(s, p, sub)
}

/// `s.contains(sub)`.
pub fn str_contains(s: &str, sub: &str) -> (r: bool)
    ensures
        r == contains_text(s@, sub@),
{
    let n = s.unicode_len();
    let m = sub.unicode_len();
    if m > n {
        return false;
    }
    let mut pos: usize = 0;
    while pos <= n - m
        invariant
            n == s@.len(),
            m == sub@.len(),
            m <= n,
            pos <= n - m + 1,
            forall|p: int| 0 <= p < pos ==> !#[trigger] occurs_at(s@, p, sub@),
        decreases n - m + 1 - pos,
    {
        let mut k: usize = 0;
        let mut same = true;
        while k < m && same
            invariant
                n == s@.len(),
                m == sub@.len(),
                pos + m <= n,
                k <= m,
                same == (forall|j: int| 0 <= j < k ==> s@[pos + j] == sub@[j]),
            decreases m - k,
        {
            if s.get_char(pos + k) != sub.get_char(k) {
                same = false;
            }
            k = k + 1;
        }
        if same {
            assert(s@.subrange(pos as int, pos + m) =~= sub@);
            assert(occurs_at(s@, pos as int, sub@));
            return true;
        }
        proof {
            let j = choose|j: int| 0 <= j < k && s@[pos + j] != sub@[j];
            assert(s@.subrange(pos as int, pos + m)[j] != sub@[j]);
        }
        pos = pos + 1;
    }
    false
}


/// `qs` with `q` added at the end unless it is already there.
pub open spec fn add_distinct(qs: Seq<Seq<char>>, q: Seq<char>) -> Seq<Seq<char>> {
    if qs.contains(q) {
        qs
    } else {
        qs.push(q)
    }
}

/// `qs` with each element of `new` added in turn unless already there.
pub open spec fn add_all_distinct(qs: Seq<Seq<char>>, new: Seq<Seq<char>>) -> Seq<Seq<char>>
    decreases new.len(),
{
    if new.len() == 0 {
        qs
    } else {
        add_distinct(add_all_distinct(qs, new.drop_last()), new.last())
    }
}

pub fn position_of(v: &Vec<String>, s: &str) -> (r: Option<usize>)
    ensures
        match r {
            Some(i) => i < v.len() && v@[i as int]@ == s@,
            None => !string_views(v@).contains(s@),
        },
{
    let mut i: usize = 0;
    while i < v.len()
        invariant
            i <= v.len(),
            forall|k: int| 0 <= k < i ==> v@[k]@ != s@,
        decreases v.len() - i,
    {
        if same_text(v[i].as_str(), s) {
            return Some(i);
        }
        i = i + 1;
    }
    proof {
        if string_views(v@).contains(s@) {
            let k = choose|k: int| 0 <= k < string_views(v@).len() && string_views(v@)[k] == s@;
            assert(v@[k]@ == s@);
        }
    }
    None
}

/// Adds `s` to `v` unless `v` already holds the same text.
pub fn insert_distinct(v: &mut Vec<String>, s: String)
    ensures
        string_views(final(v)@) == add_distinct(string_views(old(v)@), s@),
{
    match position_of(v, s.as_str()) {
        Some(i) => {
            assert(string_views(v@)[i as int] == s@);
        },
        None => {
            let ghost before = v@;
            v.push(s);
            assert(string_views(v@) =~= string_views(before).push(s@));
        },
    }
}

pub proof fn lemma_push_distinct(v: Seq<Seq<char>>, x: Seq<char>)
    requires
        v.no_duplicates(),
        !v.contains(x),
    ensures
        v.push(x).no_duplicates(),
{
    assert forall|i: int, j: int|
        0 <= i < v.push(x).len() && 0 <= j < v.push(x).len() && i != j implies v.push(x)[i]
        != v.push(x)[j] by {
        if i < v.len() && j < v.len() {
        } else if i == v.len() {
            assert(v.push(x)[j] == v[j]);
        } else {
            assert(v.push(x)[i] == v[i]);
        }
    }
}

} // verus!
