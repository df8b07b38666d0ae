use vstd::prelude::*;

verus! {

// ---------------------------------------------------------------------------
// Unicode character classes and case.
// ---------------------------------------------------------------------------

/// Whether `c` has the Unicode `White_Space` property (`char::is_whitespace`):
/// tab to carriage return, space, next line, no-break space, ogham space mark,
/// en quad to hair space, the line and paragraph separators, narrow no-break
/// space, medium mathematical space and ideographic space.
pub open spec fn is_whitespace_char(c: char) -> bool {
    ||| '\u{9}' <= c <= '\u{d}'
    ||| c == ' '
    ||| c == '\u{85}'
    ||| c == '\u{a0}'
    ||| c == '\u{1680}'
    ||| '\u{2000}' <= c <= '\u{200a}'
    ||| c == '\u{2028}'
    ||| c == '\u{2029}'
    ||| c == '\u{202f}'
    ||| c == '\u{205f}'
    ||| c == '\u{3000}'
}

/// Whether `c` is alphabetic or numeric in Unicode terms (`char::is_alphanumeric`).
pub uninterp spec fn is_alphanumeric_char(c: char) -> bool;

/// The lowercase form of `s` under Unicode's case mapping (`str::to_lowercase`).
pub uninterp spec fn lowercase(s: Seq<char>) -> Seq<char>;

/// Whether `c` has the Unicode `White_Space` property.
fn char_is_whitespace(c: char) -> (r: bool)
    ensures
        r == is_whitespace_char(c),
{
    ('\u{9}' <= c && c <= '\u{d}') || c == ' ' || c == '\u{85}' || c == '\u{a0}' || c == '\u{1680}'
        || ('\u{2000}' <= c && c <= '\u{200a}') || c == '\u{2028}' || c == '\u{2029}' || c
        == '\u{202f}' || c == '\u{205f}' || c == '\u{3000}'
}

/// `char::is_alphanumeric`: whether `c` is alphabetic or numeric in Unicode terms.
/// Which characters are is not stated; the result is named by
/// `is_alphanumeric_char`.
#[verifier::external_body]
fn char_is_alphanumeric(c: char) -> (r: bool)
    ensures
        r == is_alphanumeric_char(c),
{
    c.is_alphanumeric()
}

/// `str::to_lowercase`: the lowercase form of `s`.  What the Unicode case tables
/// map each character to is not stated; the result is named by `lowercase`.
#[verifier::external_body]
pub(crate) fn to_lowercase(s: &str) -> (r: String)
    ensures
        r@ == lowercase(s@),
{
    s.to_lowercase()
}

/// `String::push`: appends the character `c` at the end of `s`.
#[verifier::external_body]
fn push_char(s: &mut String, c: char)
    ensures
        final(s)@ == old(s)@.push(c),
{
    s.push(c)
}

// ---------------------------------------------------------------------------
// Specifications over character sequences.
// ---------------------------------------------------------------------------

/// `s` with its leading whitespace removed.
pub open spec fn trim_start(s: Seq<char>) -> Seq<char>
    decreases s.len(),
{
    if s.len() > 0 && is_whitespace_char(s[0]) {
        trim_start(s.drop_first())
    } else {
        s
    }
}

/// `s` with its trailing whitespace removed.
pub open spec fn trim_end(s: Seq<char>) -> Seq<char>
    decreases s.len(),
{
    if s.len() > 0 && is_whitespace_char(s.last()) {
        trim_end(s.drop_last())
    } else {
        s
    }
}

/// `s` with leading and trailing whitespace removed (`str::trim`).
pub open spec fn trim(s: Seq<char>) -> Seq<char> {
    trim_end(trim_start(s))
}

/// Whether `s` begins with `p`.
pub open spec fn starts_with(s: Seq<char>, p: Seq<char>) -> bool {
    p.len() <= s.len() && s.subrange(0, p.len() as int) == p
}

/// Whether `n` occurs in `s` starting at position `i`.
pub open spec fn occurs_at(s: Seq<char>, n: Seq<char>, i: int) -> bool {
    0 <= i && i + n.len() <= s.len() && s.subrange(i, i + n.len()) == n
}

/// Whether `n` occurs somewhere in `s` (`str::contains`).
pub open spec fn contains(s: Seq<char>, n: Seq<char>) -> bool {
    exists|i: int| #[trigger] occurs_at(s, n, i)
}

/// The pieces of `s` between the characters that `sep` selects, empty ones
/// included (`str::split` with a character predicate).
pub open spec fn split_on(s: Seq<char>, sep: spec_fn(char) -> bool) -> Seq<Seq<char>>
    decreases s.len(),
{
    if s.len() == 0 {
        seq![Seq::<char>::empty()]
    } else {
        let pieces = split_on(s.drop_last(), sep);
        if sep(s.last()) {
            pieces.push(Seq::<char>::empty())
        } else {
            pieces.update(pieces.len() - 1, pieces.last().push(s.last()))
        }
    }
}

/// The pieces of `ps` that are not empty.
pub open spec fn non_empty(ps: Seq<Seq<char>>) -> Seq<Seq<char>> {
    ps.filter(|p: Seq<char>| p.len() > 0)
}

/// The pieces of `ps` with `sep` between each two of them (`join`).
pub open spec fn join(ps: Seq<Seq<char>>, sep: Seq<char>) -> Seq<char>
    decreases ps.len(),
{
    if ps.len() == 0 {
        Seq::<char>::empty()
    } else if ps.len() == 1 {
        ps[0]
    } else {
        join(ps.drop_last(), sep) + sep + ps.last()
    }
}

/// The separator predicate for whitespace.
pub open spec fn whitespace_sep() -> spec_fn(char) -> bool {
    |c: char| is_whitespace_char(c)
}

/// The separator predicate for characters that are not alphanumeric.
pub open spec fn non_alphanumeric_sep() -> spec_fn(char) -> bool {
    |c: char| !is_alphanumeric_char(c)
}

/// The separator predicate for line feeds.
pub open spec fn line_feed_sep() -> spec_fn(char) -> bool {
    |c: char| c == '\n'
}

/// The whitespace-separated words of `s` (`str::split_whitespace`).
pub open spec fn words(s: Seq<char>) -> Seq<Seq<char>> {
    non_empty(split_on(s, whitespace_sep()))
}

/// The view of a vector of character vectors.
pub open spec fn pieces_view(v: Seq<Vec<char>>) -> Seq<Seq<char>> {
    v.map_values(|w: Vec<char>| w@)
}

// ---------------------------------------------------------------------------
// Lemmas.
// ---------------------------------------------------------------------------

proof fn lemma_trim_start_skip(s: Seq<char>, k: int)
    requires
        0 <= k <= s.len(),
        forall|j: int| 0 <= j < k ==> is_whitespace_char(#[trigger] s[j]),
        k < s.len() ==> !is_whitespace_char(s[k]),
    ensures
        trim_start(s) == s.skip(k),
    decreases k,
{
    if k == 0 {
        assert(s.skip(0) == s);
    } else {
        assert(is_whitespace_char(s[0]));
        let t = s.drop_first();
        assert forall|j: int| 0 <= j < k - 1 implies is_whitespace_char(#[trigger] t[j]) by {
            assert(t[j] == s[j + 1]);
        }
        if k - 1 < t.len() {
            assert(t[k - 1] == s[k]);
        }
        lemma_trim_start_skip(t, k - 1);
        assert(t.skip(k - 1) == s.skip(k));
    }
}

proof fn lemma_trim_end_take(s: Seq<char>, k: int)
    requires
        0 <= k <= s.len(),
        forall|j: int| k <= j < s.len() ==> is_whitespace_char(#[trigger] s[j]),
        k > 0 ==> !is_whitespace_char(s[k - 1]),
    ensures
        trim_end(s) == s.take(k),
    decreases s.len() - k,
{
    if k == s.len() {
        assert(s.take(k) == s);
    } else {
        assert(is_whitespace_char(s.last()));
        let t = s.drop_last();
        assert forall|j: int| k <= j < t.len() implies is_whitespace_char(#[trigger] t[j]) by {
            assert(t[j] == s[j]);
        }
        if k > 0 {
            assert(t[k - 1] == s[k - 1]);
        }
        lemma_trim_end_take(t, k);
        assert(t.take(k) == s.take(k));
    }
}

proof fn lemma_trim_start_shape(s: Seq<char>)
    ensures
        trim_start(s).len() > 0 ==> !is_whitespace_char(trim_start(s)[0]),
        trim_start(s).len() <= s.len(),
        trim_start(s) == s.skip(s.len() - trim_start(s).len()),
    decreases s.len(),
{
    if s.len() > 0 && is_whitespace_char(s[0]) {
        lemma_trim_start_shape(s.drop_first());
        assert(s.drop_first().skip(s.drop_first().len() - trim_start(s).len()) == s.skip(
            s.len() - trim_start(s).len(),
        ));
    } else {
        assert(s.skip(0) == s);
    }
}

proof fn lemma_trim_end_shape(s: Seq<char>)
    ensures
        trim_end(s).len() > 0 ==> !is_whitespace_char(trim_end(s).last()),
        trim_end(s).len() <= s.len(),
        trim_end(s) == s.take(trim_end(s).len() as int),
    decreases s.len(),
{
    if s.len() > 0 && is_whitespace_char(s.last()) {
        lemma_trim_end_shape(s.drop_last());
        assert(s.drop_last().take(trim_end(s).len() as int) == s.take(trim_end(s).len() as int));
    } else {
        assert(s.take(s.len() as int) == s);
    }
}

proof fn lemma_trim_end_keeps_start(s: Seq<char>)
    requires
        s.len() > 0 ==> !is_whitespace_char(s[0]),
    ensures
        trim_end(s).len() > 0 ==> !is_whitespace_char(trim_end(s)[0]),
    decreases s.len(),
{
    lemma_trim_end_shape(s);
    if trim_end(s).len() > 0 {
        assert(trim_end(s)[0] == s[0]);
    }
}

proof fn lemma_trim_of_trimmed(s: Seq<char>)
    requires
        s.len() > 0 ==> !is_whitespace_char(s[0]) && !is_whitespace_char(s.last()),
    ensures
        trim(s) == s,
{
}

/// Trimming is idempotent: trimmed text has nothing more to trim.
pub proof fn lemma_trim_idempotent(s: Seq<char>)
    ensures
        trim(trim(s)) == trim(s),
{
    lemma_trim_start_shape(s);
    lemma_trim_end_keeps_start(trim_start(s));
    lemma_trim_end_shape(trim_start(s));
    lemma_trim_of_trimmed(trim(s));
}

/// `split_on` always yields at least one piece.
pub proof fn lemma_split_on_len(s: Seq<char>, sep: spec_fn(char) -> bool)
    ensures
        split_on(s, sep).len() >= 1,
    decreases s.len(),
{
    if s.len() > 0 {
        lemma_split_on_len(s.drop_last(), sep);
    }
}

// ---------------------------------------------------------------------------
// Executable operations.
// ---------------------------------------------------------------------------

/// The characters of `s`, in order.
pub fn char_vec(s: &str) -> (r: Vec<char>)
    ensures
        r@ == s@,
{
    let mut r: Vec<char> = Vec::new();
    for c in it: s.chars()
        invariant
            r@ == it.seq().take(it.index() as int),
            it.seq() == s@,
    {
        r.push(c);
    }
    r
}

/// The string made of the characters of `cs`, in order.
pub fn string_of(cs: &Vec<char>) -> (r: String)
    ensures
        r@ == cs@,
{
    let mut r = String::new();
    let n = cs.len();
    for i in 0..n
        invariant
            n == cs@.len(),
            r@ == cs@.take(i as int),
    {
        push_char(&mut r, cs[i]);
        assert(cs@.take(i + 1) == cs@.take(i as int).push(cs@[i as int]));
    }
    assert(cs@.take(n as int) == cs@);
    r
}

/// The characters `cs[from..to]`.
pub fn sub_chars(cs: &Vec<char>, from: usize, to: usize) -> (r: Vec<char>)
    requires
        from <= to <= cs.len(),
    ensures
        r@ == cs@.subrange(from as int, to as int),
{
    let mut r: Vec<char> = Vec::new();
    let mut i = from;
    while i < to
        invariant
            from <= i <= to <= cs.len(),
            r@ == cs@.subrange(from as int, i as int),
        decreases to - i,
    {
        r.push(cs[i]);
        i += 1;
        assert(r@ == cs@.subrange(from as int, i as int));
    }
    r
}

/// `a` followed by `b`.
pub fn concat_chars(a: &Vec<char>, b: &Vec<char>) -> (r: Vec<char>)
    ensures
        r@ == a@ + b@,
{
    let mut r: Vec<char> = Vec::new();
    let n = a.len();
    for i in 0..n
        invariant
            n == a@.len(),
            r@ == a@.take(i as int),
    {
        r.push(a[i]);
        assert(a@.take(i + 1) == a@.take(i as int).push(a@[i as int]));
    }
    let m = b.len();
    assert(a@.take(n as int) == a@);
    for j in 0..m
        invariant
            m == b@.len(),
            r@ == a@ + b@.take(j as int),
    {
        r.push(b[j]);
        assert(b@.take(j + 1) == b@.take(j as int).push(b@[j as int]));
    }
    assert(b@.take(m as int) == b@);
    r
}

/// `cs` with leading and trailing whitespace removed.
pub fn trim_chars(cs: &Vec<char>) -> (r: Vec<char>)
    ensures
        r@ == trim(cs@),
{
    let n = cs.len();
    let mut start: usize = 0;
    while start < n && char_is_whitespace(cs[start])
        invariant
            n == cs.len(),
            start <= n,
            forall|j: int| 0 <= j < start ==> is_whitespace_char(#[trigger] cs@[j]),
        decreases n - start,
    {
        start += 1;
    }
    proof {
        lemma_trim_start_skip(cs@, start as int);
    }
    let ghost t = cs@.skip(start as int);
    let mut end: usize = n;
    while end > start && char_is_whitespace(cs[end - 1])
        invariant
            n == cs.len(),
            start <= end <= n,
            t == cs@.skip(start as int),
            forall|j: int| end <= j < n ==> is_whitespace_char(#[trigger] cs@[j]),
        decreases end - start,
    {
        end -= 1;
    }
    proof {
        assert forall|j: int| end - start <= j < t.len() implies is_whitespace_char(#[trigger] t[j]) by {
            assert(t[j] == cs@[j + start]);
        }
        if end > start {
            assert(t[end - start - 1] == cs@[end - 1]);
        }
        lemma_trim_end_take(t, end - start);
        assert(t.take(end - start) == cs@.subrange(start as int, end as int));
    }
    sub_chars(cs, start, end)
}

/// `s` with leading and trailing whitespace removed (`str::trim`).
pub fn trim_str(s: &str) -> (r: String)
    ensures
        r@ == trim(s@),
{
    let cs = char_vec(s);
    string_of(&trim_chars(&cs))
}

/// Whether `n` occurs in `s` starting at position `i`.
pub fn occurs_at_exec(s: &Vec<char>, n: &Vec<char>, i: usize) -> (r: bool)
    ensures
        r == occurs_at(s@, n@, i as int),
{
    if n.len() > s.len() || i > s.len() - n.len() {
        return false;
    }
    let m = n.len();
    for k in 0..m
        invariant
            m == n@.len(),
            i + m <= s@.len(),
            s@.len() == s.len(),
            forall|j: int| 0 <= j < k ==> s@[i + j] == n@[j],
    {
        assert(i + k < s.len());
        if s[i + k] != n[k] {
            assert(s@.subrange(i as int, i + m)[k as int] != n@[k as int]);
            return false;
        }
    }
    assert(s@.subrange(i as int, i + m) == n@);
    true
}

/// Whether `needle` occurs somewhere in `s`.
pub fn contains_str(s: &Vec<char>, needle: &str) -> (r: bool)
    ensures
        r == contains(s@, needle@),
{
    let n = char_vec(needle);
    contains_chars(s, &n)
}

/// Whether `n` occurs somewhere in `s`.
pub fn contains_chars(s: &Vec<char>, n: &Vec<char>) -> (r: bool)
    ensures
        r == contains(s@, n@),
{
    if n.len() > s.len() {
        assert(forall|i: int| !#[trigger] occurs_at(s@, n@, i));
        return false;
    }
    let last = s.len() - n.len();
    let mut i: usize = 0;
    loop
        invariant
            last == s@.len() - n@.len(),
            i <= last,
            forall|j: int| 0 <= j < i ==> !#[trigger] occurs_at(s@, n@, j),
        decreases last - i,
    {
        if occurs_at_exec(s, n, i) {
            return true;
        }
        if i == last {
            assert(forall|j: int| !#[trigger] occurs_at(s@, n@, j));
            return false;
        }
        i += 1;
    }
}

/// Whether `s` begins with `prefix`.
pub fn starts_with_str(s: &Vec<char>, prefix: &str) -> (r: bool)
    ensures
        r == starts_with(s@, prefix@),
{
    let p = char_vec(prefix);
    starts_with_chars(s, &p)
}

/// Whether `a` and `b` hold the same characters.
pub fn str_eq(a: &str, b: &str) -> (r: bool)
    ensures
        r == (a@ == b@),
{
    let x = char_vec(a);
    let y = char_vec(b);
    if x.len() != y.len() {
        return false;
    }
    let r = occurs_at_exec(&x, &y, 0);
    assert(x@.subrange(0, y@.len() as int) == x@);
    r
}

/// Whether `s` begins with `p`.
pub fn starts_with_chars(s: &Vec<char>, p: &Vec<char>) -> (r: bool)
    ensures
        r == starts_with(s@, p@),
{
    if p.len() > s.len() {
        return false;
    }
    let r = occurs_at_exec(s, p, 0);
    r
}


/// Which characters separate the pieces of a split.
pub enum Separator {
    /// Characters with the Unicode `White_Space` property.
    Whitespace,
    /// Characters that are neither alphabetic nor numeric.
    NonAlphanumeric,
    /// The line feed character.
    LineFeed,
}

/// The predicate that `sep` stands for.
pub open spec fn separator_pred(sep: Separator) -> spec_fn(char) -> bool {
    match sep {
        Separator::Whitespace => whitespace_sep(),
        Separator::NonAlphanumeric => non_alphanumeric_sep(),
        Separator::LineFeed => line_feed_sep(),
    }
}

fn is_separator(sep: &Separator, c: char) -> (r: bool)
    ensures
        r == separator_pred(*sep)(c),
{
    match sep {
        Separator::Whitespace => char_is_whitespace(c),
        Separator::NonAlphanumeric => !char_is_alphanumeric(c),
        Separator::LineFeed => c == '\n',
    }
}

proof fn lemma_pieces_view_push(ps: Seq<Vec<char>>, w: Vec<char>)
    ensures
        pieces_view(ps.push(w)) == pieces_view(ps).push(w@),
{
    assert(pieces_view(ps.push(w)) =~= pieces_view(ps).push(w@));
}

/// The pieces of `cs` between the characters that `sep` selects, empty ones included.
pub fn split_chars(cs: &Vec<char>, sep: Separator) -> (r: Vec<Vec<char>>)
    ensures
        pieces_view(r@) == split_on(cs@, separator_pred(sep)),
{
    let ghost pred = separator_pred(sep);
    let mut pieces: Vec<Vec<char>> = Vec::new();
    let mut cur: Vec<char> = Vec::new();
    let n = cs.len();
    assert(cs@.take(0) =~= Seq::<char>::empty());
    assert(pieces_view(pieces@).push(cur@) =~= seq![Seq::<char>::empty()]);
    for i in 0..n
        invariant
            n == cs@.len(),
            pred == separator_pred(sep),
            pieces_view(pieces@).push(cur@) == split_on(cs@.take(i as int), pred),
    {
        let c = cs[i];
        let ghost before = split_on(cs@.take(i as int), pred);
        assert(cs@.take(i + 1).drop_last() == cs@.take(i as int));
        assert(cs@.take(i + 1).last() == c);
        if is_separator(&sep, c) {
            let ghost old_pieces = pieces@;
            pieces.push(cur);
            cur = Vec::new();
            proof {
                lemma_pieces_view_push(old_pieces, pieces@.last());
                assert(pieces_view(pieces@).push(cur@) =~= before.push(Seq::<char>::empty()));
            }
        } else {
            cur.push(c);
            assert(pieces_view(pieces@).push(cur@) =~= before.update(before.len() - 1, before.last().push(c)));
        }
    }
    assert(cs@.take(n as int) == cs@);
    let ghost old_pieces = pieces@;
    pieces.push(cur);
    proof {
        lemma_pieces_view_push(old_pieces, pieces@.last());
    }
    pieces
}

/// The pieces of `ps` that are not empty.
pub fn non_empty_pieces(ps: Vec<Vec<char>>) -> (r: Vec<Vec<char>>)
    ensures
        pieces_view(r@) == non_empty(pieces_view(ps@)),
{
    let ghost nonempty = |p: Seq<char>| p.len() > 0;
    let mut r: Vec<Vec<char>> = Vec::new();
    let n = ps.len();
    assert(pieces_view(ps@.take(0)) =~= Seq::<Seq<char>>::empty());
    proof {
        reveal(Seq::filter);
    }
    for i in 0..n
        invariant
            n == ps@.len(),
            nonempty == (|p: Seq<char>| p.len() > 0),
            pieces_view(r@) == pieces_view(ps@.take(i as int)).filter(nonempty),
    {
        let w = ps[i].clone();
        proof {
            assert(ps@.take(i + 1) == ps@.take(i as int).push(ps@[i as int]));
            lemma_pieces_view_push(ps@.take(i as int), ps@[i as int]);
            pieces_view(ps@.take(i as int)).lemma_filter_push(ps@[i as int]@, nonempty);
        }
        if w.len() > 0 {
            let ghost old_r = r@;
            r.push(w);
            proof {
                lemma_pieces_view_push(old_r, w);
            }
        }
    }
    assert(ps@.take(n as int) == ps@);
    r
}

/// The pieces of `ps` with `sep` between each two of them.
pub fn join_pieces(ps: &Vec<Vec<char>>, sep: &Vec<char>) -> (r: Vec<char>)
    ensures
        r@ == join(pieces_view(ps@), sep@),
{
    let mut r: Vec<char> = Vec::new();
    let n = ps.len();
    assert(pieces_view(ps@.take(0)) =~= Seq::<Seq<char>>::empty());
    for i in 0..n
        invariant
            n == ps@.len(),
            r@ == join(pieces_view(ps@.take(i as int)), sep@),
    {
        proof {
            assert(ps@.take(i + 1) == ps@.take(i as int).push(ps@[i as int]));
            lemma_pieces_view_push(ps@.take(i as int), ps@[i as int]);
            assert(pieces_view(ps@.take(i + 1)).drop_last() == pieces_view(ps@.take(i as int)));
        }
        if i == 0 {
            r = ps[i].clone();
            assert(pieces_view(ps@.take(1)).len() == 1);
        } else {
            let with_sep = concat_chars(&r, sep);
            r = concat_chars(&with_sep, &ps[i]);
        }
    }
    assert(ps@.take(n as int) == ps@);
    r
}

/// The lowercase form of the characters `cs`.
pub fn lowercase_chars(cs: &Vec<char>) -> (r: Vec<char>)
    ensures
        r@ == lowercase(cs@),
{
    let s = string_of(cs);
    let l = to_lowercase(s.as_str());
    char_vec(l.as_str())
}

/// The views of a sequence of strings.
pub open spec fn strings_view(v: Seq<String>) -> Seq<Seq<char>> {
    v.map_values(|s: String| s@)
}

/// The characters of each string of `v`.
pub fn char_vecs(v: &Vec<String>) -> (r: Vec<Vec<char>>)
    ensures
        pieces_view(r@) == strings_view(v@),
{
    let mut r: Vec<Vec<char>> = Vec::new();
    let n = v.len();
    for i in 0..n
        invariant
            n == v@.len(),
            pieces_view(r@) == strings_view(v@.take(i as int)),
    {
        let ghost old_r = r@;
        r.push(char_vec(v[i].as_str()));
        proof {
            lemma_pieces_view_push(old_r, r@.last());
            assert(v@.take(i + 1) == v@.take(i as int).push(v@[i as int]));
            assert(strings_view(v@.take(i + 1)) =~= strings_view(v@.take(i as int)).push(v@[i as int]@));
        }
    }
    assert(v@.take(n as int) == v@);
    r
}

/// The whitespace-separated words of `s`, joined by single spaces and lowercased.
pub open spec fn normalized_text(s: Seq<char>) -> Seq<char> {
    lowercase(join(words(s), seq![' ']))
}

/// `value` with runs of whitespace collapsed to one space, ends trimmed, and
/// lowercased.
pub fn normalize_text(value: &str) -> (r: String)
    ensures
        r@ == normalized_text(value@),
{
    let cs = char_vec(value);
    let pieces = split_chars(&cs, Separator::Whitespace);
    let kept = non_empty_pieces(pieces);
    let mut space: Vec<char> = Vec::new();
    space.push(' ');
    assert(space@ == seq![' ']);
    let joined = join_pieces(&kept, &space);
    to_lowercase(string_of(&joined).as_str())
}

} // verus!
