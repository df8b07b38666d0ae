use vstd::prelude::*;

use crate::models::{copy_opt, opt_view, SourceMetadata};
use crate::text::{
    char_vec, char_vecs, concat_chars, contains, contains_chars, contains_str, join, join_pieces,
    lowercase, lowercase_chars, normalize_text, normalized_text, occurs_at, occurs_at_exec,
    line_feed_sep, pieces_view, split_chars, split_on, starts_with, starts_with_str, string_of,
    strings_view, sub_chars, to_lowercase, trim, trim_chars, trim_str, lemma_trim_idempotent,
    Separator,
};

verus! {

// ---------------------------------------------------------------------------
// Sources that are never recorded.
// ---------------------------------------------------------------------------

/// A known field of a source, lowercased, followed by a line feed; nothing for a
/// field that is not known.
pub open spec fn field_line(v: Option<String>) -> Seq<char> {
    match v {
        Some(s) => lowercase(s@).push('\n'),
        None => Seq::<char>::empty(),
    }
}

/// The lowercased fields of `source` that can reveal a password manager, one per
/// line, in the order app, window, page title, page address.  Each field is
/// lowercased on its own; that is the text that lowercasing the joined fields
/// gives, since the one case mapping that depends on its neighbours (the final
/// sigma) looks only at letters and what may stand inside a word, and a line feed
/// is neither.
pub open spec fn source_haystack(source: &SourceMetadata) -> Seq<char> {
    field_line(source.app_name) + field_line(source.window_title) + field_line(source.page_title)
        + field_line(source.page_url)
}

/// Whether `s` mentions this application itself.
pub open spec fn mentions_own_app(s: Seq<char>) -> bool {
    contains(s, "clipvault"@)
}

/// Whether `s` mentions a password manager or a password prompt.
pub open spec fn mentions_password_source(s: Seq<char>) -> bool {
    ||| contains(s, "1password"@)
    ||| contains(s, "bitwarden"@)
    ||| contains(s, "dashlane"@)
    ||| contains(s, "keeper"@)
    ||| contains(s, "lastpass"@)
    ||| contains(s, "proton pass"@)
    ||| contains(s, "nordpass"@)
    ||| contains(s, "enpass"@)
    ||| contains(s, "keychain"@)
    ||| contains(s, "password"@)
    ||| contains(s, "haslo"@)
    ||| contains(s, "hasło"@)
}

/// Whether `s` mentions this application or a password manager.
pub open spec fn mentions_skip_hint(s: Seq<char>) -> bool {
    mentions_own_app(s) || mentions_password_source(s)
}

fn push_field_line(hay: &mut Vec<char>, v: &Option<String>)
    ensures
        final(hay)@ == old(hay)@ + field_line(*v),
{
    match v {
        Some(s) => {
            let cs = char_vec(to_lowercase(s.as_str()).as_str());
            let mut line = concat_chars(hay, &cs);
            line.push('\n');
            *hay = line;
        },
        None => {
            assert(old(hay)@ + Seq::<char>::empty() == old(hay)@);
        },
    }
}

/// Whether content copied from `source` must not be recorded: the lowercased
/// fields of the source mention this application or a password manager.
pub fn should_skip_source(source: &SourceMetadata) -> (r: bool)
    ensures
        r == mentions_skip_hint(source_haystack(source)),
{
    let mut h: Vec<char> = Vec::new();
    push_field_line(&mut h, &source.app_name);
    push_field_line(&mut h, &source.window_title);
    push_field_line(&mut h, &source.page_title);
    push_field_line(&mut h, &source.page_url);
    assert(h@ == source_haystack(source));
    contains_str(&h, "clipvault") || contains_str(&h, "1password") || contains_str(&h, "bitwarden")
        || contains_str(&h, "dashlane") || contains_str(&h, "keeper") || contains_str(&h, "lastpass")
        || contains_str(&h, "proton pass") || contains_str(&h, "nordpass") || contains_str(
        &h,
        "enpass",
    ) || contains_str(&h, "keychain") || contains_str(&h, "password") || contains_str(&h, "haslo")
        || contains_str(&h, "hasło")
}

/// Whether `h` holds no line feed.
pub open spec fn free_of_line_feed(h: Seq<char>) -> bool {
    forall|i: int| 0 <= i < h.len() ==> h[i] != '\n'
}

/// Whether `h` is a non-empty text without line feed.
pub open spec fn single_line_word(h: Seq<char>) -> bool {
    h.len() > 0 && free_of_line_feed(h)
}

/// Whether `s` is empty or ends with a line feed.
pub open spec fn ends_line(s: Seq<char>) -> bool {
    s.len() == 0 || s.last() == '\n'
}

proof fn lemma_contains_split(x: Seq<char>, y: Seq<char>, h: Seq<char>)
    requires
        contains(x + y, h),
        ends_line(x),
        free_of_line_feed(h),
    ensures
        contains(x, h) || contains(y, h),
{
    let xy = x + y;
    let i = choose|i: int| #[trigger] occurs_at(xy, h, i);
    if i + h.len() <= x.len() {
        assert(x.subrange(i, i + h.len()) == xy.subrange(i, i + h.len()));
        assert(occurs_at(x, h, i));
    } else if i >= x.len() {
        assert(y.subrange(i - x.len(), i - x.len() + h.len()) == xy.subrange(i, i + h.len()));
        assert(occurs_at(y, h, i - x.len()));
    } else {
        let k = x.len() - 1 - i;
        assert(xy.subrange(i, i + h.len())[k] == xy[x.len() - 1]);
        assert(h[k] == '\n');
    }
}

proof fn lemma_contains_append_right(y: Seq<char>, z: Seq<char>, h: Seq<char>)
    requires
        contains(y, h),
    ensures
        contains(y + z, h),
{
    let i = choose|i: int| #[trigger] occurs_at(y, h, i);
    assert((y + z).subrange(i, i + h.len()) == y.subrange(i, i + h.len()));
    assert(occurs_at(y + z, h, i));
}

proof fn lemma_contains_append_left(x: Seq<char>, y: Seq<char>, h: Seq<char>)
    requires
        contains(y, h),
    ensures
        contains(x + y, h),
{
    let i = choose|i: int| #[trigger] occurs_at(y, h, i);
    assert((x + y).subrange(x.len() + i, x.len() + i + h.len()) == y.subrange(i, i + h.len()));
    assert(occurs_at(x + y, h, x.len() + i));
}

proof fn lemma_contains_nonempty(s: Seq<char>, h: Seq<char>)
    requires
        contains(s, h),
        h.len() > 0,
    ensures
        s.len() > 0,
{
    let i = choose|i: int| #[trigger] occurs_at(s, h, i);
}

proof fn lemma_ends_line_add(a: Seq<char>, b: Seq<char>)
    requires
        ends_line(a),
        ends_line(b),
    ensures
        ends_line(a + b),
{
    if b.len() > 0 {
        assert((a + b).last() == b.last());
    }
}

/// Whether `more` knows every field of the haystack that `less` knows, with the
/// same value.
pub open spec fn knows_at_least(less: &SourceMetadata, more: &SourceMetadata) -> bool {
    &&& less.app_name is Some ==> more.app_name == less.app_name
    &&& less.window_title is Some ==> more.window_title == less.window_title
    &&& less.page_title is Some ==> more.page_title == less.page_title
    &&& less.page_url is Some ==> more.page_url == less.page_url
}

proof fn lemma_hint_kept(less: &SourceMetadata, more: &SourceMetadata, h: Seq<char>)
    requires
        knows_at_least(less, more),
        free_of_line_feed(h),
        contains(source_haystack(less), h),
    ensures
        contains(source_haystack(more), h),
{
    let l1 = field_line(less.app_name);
    let l2 = field_line(less.window_title);
    let l3 = field_line(less.page_title);
    let l4 = field_line(less.page_url);
    let m1 = field_line(more.app_name);
    let m2 = field_line(more.window_title);
    let m3 = field_line(more.page_title);
    let m4 = field_line(more.page_url);
    if h.len() == 0 {
        assert(source_haystack(more).subrange(0, 0) == h);
        assert(occurs_at(source_haystack(more), h, 0));
        return;
    }
    lemma_ends_line_add(l1, l2);
    lemma_ends_line_add(l1 + l2, l3);
    lemma_contains_split(l1 + l2 + l3, l4, h);
    if contains(l4, h) {
        lemma_contains_nonempty(l4, h);
        assert(m4 == l4);
        lemma_contains_append_left(m1 + m2 + m3, m4, h);
        return;
    }
    lemma_contains_split(l1 + l2, l3, h);
    if contains(l3, h) {
        lemma_contains_nonempty(l3, h);
        assert(m3 == l3);
        lemma_contains_append_left(m1 + m2, m3, h);
    } else {
        lemma_contains_split(l1, l2, h);
        if contains(l2, h) {
            lemma_contains_nonempty(l2, h);
            assert(m2 == l2);
            lemma_contains_append_left(m1, m2, h);
        } else {
            lemma_contains_nonempty(l1, h);
            assert(m1 == l1);
            lemma_contains_append_right(m1, m2, h);
        }
        lemma_contains_append_right(m1 + m2, m3, h);
    }
    lemma_contains_append_right(m1 + m2 + m3, m4, h);
}

proof fn lemma_hints_single_line()
    ensures
        single_line_word("clipvault"@),
        single_line_word("1password"@),
        single_line_word("bitwarden"@),
        single_line_word("dashlane"@),
        single_line_word("keeper"@),
        single_line_word("lastpass"@),
        single_line_word("proton pass"@),
        single_line_word("nordpass"@),
        single_line_word("enpass"@),
        single_line_word("keychain"@),
        single_line_word("password"@),
        single_line_word("haslo"@),
        single_line_word("hasło"@),
{
    reveal_strlit("clipvault");
    reveal_strlit("1password");
    reveal_strlit("bitwarden");
    reveal_strlit("dashlane");
    reveal_strlit("keeper");
    reveal_strlit("lastpass");
    reveal_strlit("proton pass");
    reveal_strlit("nordpass");
    reveal_strlit("enpass");
    reveal_strlit("keychain");
    reveal_strlit("password");
    reveal_strlit("haslo");
    reveal_strlit("hasło");
}

/// Knowing more of a source never lets its content through: where `more` knows
/// every field that `less` knows (app, window title, page title, page address)
/// with the same value, and content from `less` is skipped, content from `more`
/// is skipped too.
pub proof fn lemma_more_source_fields_never_unskip(less: &SourceMetadata, more: &SourceMetadata)
    requires
        knows_at_least(less, more),
        mentions_skip_hint(source_haystack(less)),
    ensures
        mentions_skip_hint(source_haystack(more)),
{
    lemma_hints_single_line();
    let a = source_haystack(less);
    if contains(a, "clipvault"@) {
        lemma_hint_kept(less, more, "clipvault"@);
    } else if contains(a, "1password"@) {
        lemma_hint_kept(less, more, "1password"@);
    } else if contains(a, "bitwarden"@) {
        lemma_hint_kept(less, more, "bitwarden"@);
    } else if contains(a, "dashlane"@) {
        lemma_hint_kept(less, more, "dashlane"@);
    } else if contains(a, "keeper"@) {
        lemma_hint_kept(less, more, "keeper"@);
    } else if contains(a, "lastpass"@) {
        lemma_hint_kept(less, more, "lastpass"@);
    } else if contains(a, "proton pass"@) {
        lemma_hint_kept(less, more, "proton pass"@);
    } else if contains(a, "nordpass"@) {
        lemma_hint_kept(less, more, "nordpass"@);
    } else if contains(a, "enpass"@) {
        lemma_hint_kept(less, more, "enpass"@);
    } else if contains(a, "keychain"@) {
        lemma_hint_kept(less, more, "keychain"@);
    } else if contains(a, "password"@) {
        lemma_hint_kept(less, more, "password"@);
    } else if contains(a, "haslo"@) {
        lemma_hint_kept(less, more, "haslo"@);
    } else {
        lemma_hint_kept(less, more, "hasło"@);
    }
}

/// Whether the field value `v` is known and, lowercased, contains `h`.
pub open spec fn field_mentions(v: Option<String>, h: Seq<char>) -> bool {
    v matches Some(s) && contains(lowercase(s@), h)
}

/// Whether one of the fields of `source` that can reveal a password manager
/// (app, window title, page title, page address), lowercased, contains `h`.
pub open spec fn some_field_mentions(source: &SourceMetadata, h: Seq<char>) -> bool {
    ||| field_mentions(source.app_name, h)
    ||| field_mentions(source.window_title, h)
    ||| field_mentions(source.page_title, h)
    ||| field_mentions(source.page_url, h)
}

proof fn lemma_field_line_mentions(v: Option<String>, h: Seq<char>)
    requires
        single_line_word(h),
    ensures
        contains(field_line(v), h) <==> field_mentions(v, h),
{
    match v {
        Some(s) => {
            let x = lowercase(s@);
            assert(field_line(v) == x + seq!['\n']);
            if contains(field_line(v), h) {
                let i = choose|i: int| #[trigger] occurs_at(x + seq!['\n'], h, i);
                if i + h.len() > x.len() {
                    let xn = x + seq!['\n'];
                    let k = x.len() - i;
                    assert(xn.subrange(i, i + h.len())[k] == xn[x.len() as int]);
                    assert(h[k] == '\n');
                }
                assert(x.subrange(i, i + h.len()) == (x + seq!['\n']).subrange(i, i + h.len()));
                assert(occurs_at(x, h, i));
            }
            if field_mentions(v, h) {
                lemma_contains_append_right(x, seq!['\n'], h);
            }
        },
        None => {
            if contains(field_line(v), h) {
                lemma_contains_nonempty(field_line(v), h);
            }
        },
    }
}

proof fn lemma_haystack_mentions(source: &SourceMetadata, h: Seq<char>)
    requires
        single_line_word(h),
    ensures
        contains(source_haystack(source), h) <==> some_field_mentions(source, h),
{
    let l1 = field_line(source.app_name);
    let l2 = field_line(source.window_title);
    let l3 = field_line(source.page_title);
    let l4 = field_line(source.page_url);
    lemma_field_line_mentions(source.app_name, h);
    lemma_field_line_mentions(source.window_title, h);
    lemma_field_line_mentions(source.page_title, h);
    lemma_field_line_mentions(source.page_url, h);
    if contains(source_haystack(source), h) {
        lemma_ends_line_add(l1, l2);
        lemma_ends_line_add(l1 + l2, l3);
        lemma_contains_split(l1 + l2 + l3, l4, h);
        if !contains(l4, h) {
            lemma_contains_split(l1 + l2, l3, h);
            if !contains(l3, h) {
                lemma_contains_split(l1, l2, h);
            }
        }
    }
    if some_field_mentions(source, h) {
        if contains(l4, h) {
            lemma_contains_append_left(l1 + l2 + l3, l4, h);
        } else {
            if contains(l3, h) {
                lemma_contains_append_left(l1 + l2, l3, h);
            } else {
                if contains(l2, h) {
                    lemma_contains_append_left(l1, l2, h);
                } else {
                    lemma_contains_append_right(l1, l2, h);
                }
                lemma_contains_append_right(l1 + l2, l3, h);
            }
            lemma_contains_append_right(l1 + l2 + l3, l4, h);
        }
    }
}

/// Which sources are skipped: content is skipped exactly when one of the fields
/// of its source (app, window title, page title, page address), lowercased,
/// contains one of `clipvault`, `1password`, `bitwarden`, `dashlane`, `keeper`,
/// `lastpass`, `proton pass`, `nordpass`, `enpass`, `keychain`, `password`,
/// `haslo` or `hasło`.
pub proof fn lemma_skipped_exactly_on_listed_hints(source: &SourceMetadata)
    ensures
        mentions_skip_hint(source_haystack(source)) <==> (exists|h: Seq<char>|
            seq![
                "clipvault"@,
                "1password"@,
                "bitwarden"@,
                "dashlane"@,
                "keeper"@,
                "lastpass"@,
                "proton pass"@,
                "nordpass"@,
                "enpass"@,
                "keychain"@,
                "password"@,
                "haslo"@,
                "hasło"@,
            ].contains(h) && #[trigger] some_field_mentions(source, h)),
{
    lemma_hints_single_line();
    let hints = seq![
        "clipvault"@,
        "1password"@,
        "bitwarden"@,
        "dashlane"@,
        "keeper"@,
        "lastpass"@,
        "proton pass"@,
        "nordpass"@,
        "enpass"@,
        "keychain"@,
        "password"@,
        "haslo"@,
        "hasło"@,
    ];
    assert(hints[0] == "clipvault"@);
    assert(hints[1] == "1password"@);
    assert(hints[2] == "bitwarden"@);
    assert(hints[3] == "dashlane"@);
    assert(hints[4] == "keeper"@);
    assert(hints[5] == "lastpass"@);
    assert(hints[6] == "proton pass"@);
    assert(hints[7] == "nordpass"@);
    assert(hints[8] == "enpass"@);
    assert(hints[9] == "keychain"@);
    assert(hints[10] == "password"@);
    assert(hints[11] == "haslo"@);
    assert(hints[12] == "hasło"@);
    let hay = source_haystack(source);
    lemma_haystack_mentions(source, "clipvault"@);
    lemma_haystack_mentions(source, "1password"@);
    lemma_haystack_mentions(source, "bitwarden"@);
    lemma_haystack_mentions(source, "dashlane"@);
    lemma_haystack_mentions(source, "keeper"@);
    lemma_haystack_mentions(source, "lastpass"@);
    lemma_haystack_mentions(source, "proton pass"@);
    lemma_haystack_mentions(source, "nordpass"@);
    lemma_haystack_mentions(source, "enpass"@);
    lemma_haystack_mentions(source, "keychain"@);
    lemma_haystack_mentions(source, "password"@);
    lemma_haystack_mentions(source, "haslo"@);
    lemma_haystack_mentions(source, "hasło"@);
    if mentions_skip_hint(hay) {
        if contains(hay, "clipvault"@) {
            assert(hints.contains("clipvault"@));
        } else if contains(hay, "1password"@) {
            assert(hints.contains("1password"@));
        } else if contains(hay, "bitwarden"@) {
            assert(hints.contains("bitwarden"@));
        } else if contains(hay, "dashlane"@) {
            assert(hints.contains("dashlane"@));
        } else if contains(hay, "keeper"@) {
            assert(hints.contains("keeper"@));
        } else if contains(hay, "lastpass"@) {
            assert(hints.contains("lastpass"@));
        } else if contains(hay, "proton pass"@) {
            assert(hints.contains("proton pass"@));
        } else if contains(hay, "nordpass"@) {
            assert(hints.contains("nordpass"@));
        } else if contains(hay, "enpass"@) {
            assert(hints.contains("enpass"@));
        } else if contains(hay, "keychain"@) {
            assert(hints.contains("keychain"@));
        } else if contains(hay, "password"@) {
            assert(hints.contains("password"@));
        } else if contains(hay, "haslo"@) {
            assert(hints.contains("haslo"@));
        } else {
            assert(hints.contains("hasło"@));
        }
    }
    if exists|h: Seq<char>| hints.contains(h) && #[trigger] some_field_mentions(source, h) {
        let h = choose|h: Seq<char>| hints.contains(h) && #[trigger] some_field_mentions(source, h);
        let i = choose|i: int| 0 <= i < hints.len() && hints[i] == h;
        assert(contains(hay, h));
    }
}

/// Whether the application called `app_name` is this application itself.
pub fn is_clipvault_app(app_name: &str) -> (r: bool)
    ensures
        r == mentions_own_app(lowercase(app_name@)),
{
    let lower = char_vec(to_lowercase(app_name).as_str());
    contains_str(&lower, "clipvault")
}

// ---------------------------------------------------------------------------
// Domains.
// ---------------------------------------------------------------------------

/// The host that the `url` crate parses out of `value`, if `value` parses as an
/// absolute URL that has a host.
pub uninterp spec fn url_host(value: Seq<char>) -> Option<Seq<char>>;

/// `url::Url::parse` followed by `Url::host_str`: the host of `value` as the
/// `url` crate serializes it, or `None` where `value` does not parse or has no
/// host.  Which strings parse, and how hosts are serialized, is not stated; the
/// result is named by `url_host`.
#[verifier::external_body]
fn parsed_url_host(value: &str) -> (r: Option<String>)
    ensures
        opt_view(r) == url_host(value@),
{
    url::Url::parse(value).ok().and_then(|url| url.host_str().map(String::from))
}

/// The prefix that is stripped from domains.
pub open spec fn www_prefix() -> Seq<char> {
    seq!['w', 'w', 'w', '.']
}

/// `s` with every leading `www.` removed (`str::trim_start_matches`).
pub open spec fn strip_www(s: Seq<char>) -> Seq<char>
    decreases s.len(),
{
    if starts_with(s, www_prefix()) {
        strip_www(s.skip(4))
    } else {
        s
    }
}

/// A domain as it is shown: leading `www.` removed, then lowercased.
pub open spec fn normalized_domain(domain: Seq<char>) -> Seq<char> {
    lowercase(strip_www(domain))
}

/// The domain of `value` where it is a URL with a host.
pub open spec fn url_domain(value: Seq<char>) -> Option<Seq<char>> {
    match url_host(value) {
        Some(host) => Some(normalized_domain(host)),
        None => None,
    }
}

proof fn lemma_strip_www_skip(s: Seq<char>, i: int)
    requires
        0 <= i <= s.len(),
        i % 4 == 0,
        forall|j: int| 0 <= j < i / 4 ==> #[trigger] occurs_at(s, www_prefix(), 4 * j),
    ensures
        strip_www(s) == strip_www(s.skip(i)),
    decreases i,
{
    if i > 0 {
        assert(occurs_at(s, www_prefix(), 4 * 0int));
        assert(starts_with(s, www_prefix()));
        let t = s.skip(4);
        assert forall|j: int| 0 <= j < (i - 4) / 4 implies #[trigger] occurs_at(t, www_prefix(), 4 * j) by {
            assert(occurs_at(s, www_prefix(), 4 * (j + 1)));
            assert(t.subrange(4 * j, 4 * j + 4) == s.subrange(4 * (j + 1), 4 * (j + 1) + 4));
        }
        lemma_strip_www_skip(t, i - 4);
        assert(t.skip(i - 4) == s.skip(i));
    } else {
        assert(s.skip(0) == s);
    }
}

/// Every leading `www.` is removed, and nothing else: `s` is a run of `www.`
/// blocks followed by what `strip_www` leaves, which does not itself begin with
/// `www.`.
pub proof fn lemma_strip_www_removes_every_leading_www(s: Seq<char>)
    ensures
        !starts_with(strip_www(s), "www."@),
        (s.len() - strip_www(s).len()) % 4 == 0,
        s == s.subrange(0, s.len() - strip_www(s).len()) + strip_www(s),
        forall|j: int|
            0 <= j < (s.len() - strip_www(s).len()) / 4 ==> #[trigger] occurs_at(s, "www."@, 4 * j),
    decreases s.len(),
{
    reveal_strlit("www.");
    assert("www."@ == www_prefix());
    if starts_with(s, www_prefix()) {
        let t = s.skip(4);
        lemma_strip_www_removes_every_leading_www(t);
        let r = strip_www(t);
        assert(strip_www(s) == r);
        let head = s.subrange(0, s.len() - r.len());
        assert(head == s.subrange(0, 4) + t.subrange(0, t.len() - r.len()));
        assert(s == s.subrange(0, 4) + t);
        assert(s == head + r);
        assert forall|j: int| 0 <= j < (s.len() - r.len()) / 4 implies #[trigger] occurs_at(
            s,
            "www."@,
            4 * j,
        ) by {
            if j == 0 {
                assert(s.subrange(0, 4) == www_prefix());
            } else {
                assert(occurs_at(t, "www."@, 4 * (j - 1)));
                assert(s.subrange(4 * j, 4 * j + 4) == t.subrange(4 * (j - 1), 4 * (j - 1) + 4));
            }
        }
    } else {
        assert(s.subrange(0, 0) + s == s);
    }
}

/// `domain` with its leading `www.` prefixes removed and lowercased.
pub fn normalize_domain(domain: &str) -> (r: String)
    ensures
        r@ == normalized_domain(domain@),
{
    let cs = char_vec(domain);
    let mut www: Vec<char> = Vec::new();
    www.push('w');
    www.push('w');
    www.push('w');
    www.push('.');
    assert(www@ == www_prefix());
    let mut i: usize = 0;
    while occurs_at_exec(&cs, &www, i)
        invariant
            www@ == www_prefix(),
            i <= cs.len(),
            i % 4 == 0,
            forall|j: int| 0 <= j < i / 4 ==> #[trigger] occurs_at(cs@, www_prefix(), 4 * j),
        decreases cs.len() - i,
    {
        assert(occurs_at(cs@, www_prefix(), 4 * (i / 4)));
        i = i + 4;
    }
    proof {
        lemma_strip_www_skip(cs@, i as int);
        let t = cs@.skip(i as int);
        if starts_with(t, www_prefix()) {
            assert(t.subrange(0, 4) == cs@.subrange(i as int, i + 4));
        }
    }
    let rest = sub_chars(&cs, i, cs.len());
    assert(rest@ == cs@.skip(i as int));
    let s = string_of(&rest);
    to_lowercase(s.as_str())
}

/// The domain of `value`, if it is a URL with a host: the host without its
/// leading `www.`, lowercased.
pub fn domain_from_url(value: &str) -> (r: Option<String>)
    ensures
        opt_view(r) == url_domain(value@),
{
    match parsed_url_host(value) {
        Some(host) => Some(normalize_domain(host.as_str())),
        None => None,
    }
}


// ---------------------------------------------------------------------------
// Links in copied HTML.
// ---------------------------------------------------------------------------

/// An element of an HTML document: the values of the attributes asked for, in
/// the order they were asked for, and the text nodes below the element.
pub struct HtmlElement {
    pub attrs: Vec<Option<String>>,
    pub texts: Vec<String>,
}

/// The view of an element: its attribute values and its text nodes.
pub open spec fn element_view(e: HtmlElement) -> (Seq<Option<Seq<char>>>, Seq<Seq<char>>) {
    (e.attrs@.map_values(|a: Option<String>| opt_view(a)), strings_view(e.texts@))
}

/// The elements of the HTML fragment `html` that the CSS selector `selector`
/// matches, in the order `Html::select` walks the parsed tree, each with the
/// values of the attributes named in `attr_names` and its text nodes; `None`
/// where `selector` does not parse.
pub uninterp spec fn html_select(
    html: Seq<char>,
    selector: Seq<char>,
    attr_names: Seq<Seq<char>>,
) -> Option<Seq<(Seq<Option<Seq<char>>>, Seq<Seq<char>>)>>;

/// `scraper::Html::parse_fragment`, `scraper::Selector::parse` and `Html::select`:
/// the elements of the fragment `html` that `selector` matches, in the order
/// `Html::select` walks the parsed tree, each with `ElementRef::attr` of every name in `attr_names` and the
/// strings of `ElementRef::text`.  How HTML is parsed and selectors are matched
/// is not stated; the result is named by `html_select`.  Each element carries one
/// value per name asked for.
#[verifier::external_body]
fn select_elements(html: &str, selector: &str, attr_names: &Vec<String>) -> (r: Option<
    Vec<HtmlElement>,
>)
    ensures
        html_select(html@, selector@, strings_view(attr_names@)) == match r {
            Some(v) => Some(v@.map_values(|e: HtmlElement| element_view(e))),
            None => None,
        },
        r matches Some(v) ==> forall|i: int|
            0 <= i < v@.len() ==> (#[trigger] v@[i]).attrs@.len() == attr_names@.len(),
{
    let document = scraper::Html::parse_fragment(html);
    let selector = scraper::Selector::parse(selector).ok()?;
    Some(
        document.select(&selector).map(
            |element| HtmlElement {
                attrs: attr_names.iter().map(|name| element.attr(name).map(String::from)).collect(),
                texts: element.text().map(String::from).collect(),
            },
        ).collect(),
    )
}

/// Whether `s` is an http or https address.
pub open spec fn is_web_url(s: Seq<char>) -> bool {
    starts_with(s, "http://"@) || starts_with(s, "https://"@)
}

/// The title attribute of a link, trimmed, where it is not blank.
pub open spec fn link_title(title: Option<Seq<char>>) -> Option<Seq<char>> {
    match title {
        Some(t) => if trim(t).len() > 0 {
            Some(trim(t))
        } else {
            None
        },
        None => None,
    }
}

/// Whether a link's label and the copied text match: the text is not empty and
/// one of them contains the other.
pub open spec fn label_matches(label: Seq<char>, needle: Seq<char>) -> bool {
    needle.len() > 0 && (contains(label, needle) || contains(needle, label))
}

/// The label of a link: its text nodes joined by spaces, then normalized.
pub open spec fn link_label(texts: Seq<Seq<char>>) -> Seq<char> {
    normalized_text(join(texts, seq![' ']))
}

/// The link found among the anchors `els` (each with its `href` and `title`
/// values): the first http(s) anchor whose label matches `needle`, else the first
/// http(s) anchor (`fallback` holds it once seen).  An anchor without `href` ends
/// the search with nothing.
pub open spec fn find_link(
    els: Seq<(Seq<Option<Seq<char>>>, Seq<Seq<char>>)>,
    needle: Seq<char>,
    fallback: Option<(Seq<char>, Option<Seq<char>>, Option<Seq<char>>)>,
) -> Option<(Seq<char>, Option<Seq<char>>, Option<Seq<char>>)>
    decreases els.len(),
{
    if els.len() == 0 {
        fallback
    } else {
        match els[0].0[0] {
            None => None,
            Some(raw) => {
                let href = trim(raw);
                if !is_web_url(href) {
                    find_link(els.drop_first(), needle, fallback)
                } else {
                    let candidate = (href, link_title(els[0].0[1]), url_domain(href));
                    if label_matches(link_label(els[0].1), needle) {
                        Some(candidate)
                    } else {
                        find_link(
                            els.drop_first(),
                            needle,
                            if fallback is None {
                                Some(candidate)
                            } else {
                                fallback
                            },
                        )
                    }
                }
            },
        }
    }
}

/// The view of a found link.
pub open spec fn link_view(l: Option<(String, Option<String>, Option<String>)>) -> Option<
    (Seq<char>, Option<Seq<char>>, Option<Seq<char>>),
> {
    match l {
        Some((url, title, domain)) => Some((url@, opt_view(title), opt_view(domain))),
        None => None,
    }
}

/// The attributes that are read from anchors.
pub open spec fn anchor_attr_names() -> Seq<Seq<char>> {
    seq!["href"@, "title"@]
}

/// The link that `link_from_html` finds for `text` in `html`.
pub open spec fn html_link(html: Seq<char>, text: Seq<char>) -> Option<
    (Seq<char>, Option<Seq<char>>, Option<Seq<char>>),
> {
    match html_select(html, "a[href]"@, anchor_attr_names()) {
        Some(els) => find_link(els, normalized_text(text), None),
        None => None,
    }
}

proof fn lemma_find_link_web(
    els: Seq<(Seq<Option<Seq<char>>>, Seq<Seq<char>>)>,
    needle: Seq<char>,
    fallback: Option<(Seq<char>, Option<Seq<char>>, Option<Seq<char>>)>,
)
    requires
        fallback matches Some(f) ==> is_web_url(f.0),
    ensures
        find_link(els, needle, fallback) matches Some(l) ==> is_web_url(l.0),
    decreases els.len(),
{
    if els.len() > 0 {
        match els[0].0[0] {
            None => {},
            Some(raw) => {
                let href = trim(raw);
                let candidate = (href, link_title(els[0].0[1]), url_domain(href));
                let next = if fallback is None && is_web_url(href) {
                    Some(candidate)
                } else {
                    fallback
                };
                lemma_find_link_web(els.drop_first(), needle, fallback);
                lemma_find_link_web(els.drop_first(), needle, next);
            },
        }
    }
}

/// The address of the anchor `a`, trimmed.
pub open spec fn anchor_href(a: (Seq<Option<Seq<char>>>, Seq<Seq<char>>)) -> Seq<char> {
    trim(a.0[0]->0)
}

/// The link made of the anchor `a`: its address, its title and its domain.
pub open spec fn anchor_link(a: (Seq<Option<Seq<char>>>, Seq<Seq<char>>)) -> (
    Seq<char>,
    Option<Seq<char>>,
    Option<Seq<char>>,
) {
    (anchor_href(a), link_title(a.0[1]), url_domain(anchor_href(a)))
}

proof fn lemma_drop_first_index(els: Seq<(Seq<Option<Seq<char>>>, Seq<Seq<char>>)>)
    requires
        els.len() > 0,
    ensures
        forall|j: int| 0 <= j < els.len() - 1 ==> #[trigger] els.drop_first()[j] == els[j + 1],
{
}

proof fn lemma_find_link_keeps_fallback(
    els: Seq<(Seq<Option<Seq<char>>>, Seq<Seq<char>>)>,
    needle: Seq<char>,
    fallback: Option<(Seq<char>, Option<Seq<char>>, Option<Seq<char>>)>,
)
    requires
        forall|j: int| 0 <= j < els.len() ==> (#[trigger] els[j]).0[0] is Some,
        forall|j: int|
            0 <= j < els.len() ==> !(is_web_url(anchor_href(#[trigger] els[j])) && label_matches(
                link_label(els[j].1),
                needle,
            )),
        fallback is Some || forall|j: int| 0 <= j < els.len() ==> !is_web_url(anchor_href(#[trigger] els[j])),
    ensures
        find_link(els, needle, fallback) == fallback,
    decreases els.len(),
{
    if els.len() > 0 {
        lemma_drop_first_index(els);
        let rest = els.drop_first();
        assert(els[0].0[0] is Some);
        assert forall|j: int| 0 <= j < rest.len() implies (#[trigger] rest[j]).0[0] is Some by {
            assert(rest[j] == els[j + 1]);
        }
        assert forall|j: int| 0 <= j < rest.len() implies !(is_web_url(anchor_href(#[trigger] rest[j]))
            && label_matches(link_label(rest[j].1), needle)) by {
            assert(rest[j] == els[j + 1]);
        }
        if fallback is None {
            assert forall|j: int| 0 <= j < rest.len() implies !is_web_url(anchor_href(#[trigger] rest[j])) by {
                assert(rest[j] == els[j + 1]);
            }
        }
        lemma_find_link_keeps_fallback(rest, needle, fallback);
    }
}

proof fn lemma_find_link_first_web(
    els: Seq<(Seq<Option<Seq<char>>>, Seq<Seq<char>>)>,
    needle: Seq<char>,
    k: int,
)
    requires
        0 <= k < els.len(),
        forall|j: int| 0 <= j < els.len() ==> (#[trigger] els[j]).0[0] is Some,
        forall|j: int|
            0 <= j < els.len() ==> !(is_web_url(anchor_href(#[trigger] els[j])) && label_matches(
                link_label(els[j].1),
                needle,
            )),
        is_web_url(anchor_href(els[k])),
        forall|j: int| 0 <= j < k ==> !is_web_url(anchor_href(#[trigger] els[j])),
    ensures
        find_link(els, needle, None) == Some(anchor_link(els[k])),
    decreases k,
{
    lemma_drop_first_index(els);
    let rest = els.drop_first();
    assert forall|j: int| 0 <= j < rest.len() implies (#[trigger] rest[j]).0[0] is Some by {
        assert(rest[j] == els[j + 1]);
    }
    assert forall|j: int| 0 <= j < rest.len() implies !(is_web_url(anchor_href(#[trigger] rest[j]))
        && label_matches(link_label(rest[j].1), needle)) by {
        assert(rest[j] == els[j + 1]);
    }
    assert(els[0].0[0] is Some);
    if k == 0 {
        lemma_find_link_keeps_fallback(rest, needle, Some(anchor_link(els[0])));
    } else {
        assert(!is_web_url(anchor_href(els[0])));
        assert forall|j: int| 0 <= j < k - 1 implies !is_web_url(anchor_href(#[trigger] rest[j])) by {
            assert(rest[j] == els[j + 1]);
        }
        assert(rest[k - 1] == els[k]);
        lemma_find_link_first_web(rest, needle, k - 1);
    }
}

proof fn lemma_find_link_first_match(
    els: Seq<(Seq<Option<Seq<char>>>, Seq<Seq<char>>)>,
    needle: Seq<char>,
    fallback: Option<(Seq<char>, Option<Seq<char>>, Option<Seq<char>>)>,
    k: int,
)
    requires
        0 <= k < els.len(),
        forall|j: int| 0 <= j <= k ==> (#[trigger] els[j]).0[0] is Some,
        is_web_url(anchor_href(els[k])),
        label_matches(link_label(els[k].1), needle),
        forall|j: int|
            0 <= j < k ==> !(is_web_url(anchor_href(#[trigger] els[j])) && label_matches(
                link_label(els[j].1),
                needle,
            )),
    ensures
        find_link(els, needle, fallback) == Some(anchor_link(els[k])),
    decreases k,
{
    assert(els[0].0[0] is Some);
    if k > 0 {
        lemma_drop_first_index(els);
        let rest = els.drop_first();
        let href = anchor_href(els[0]);
        let next = if fallback is None && is_web_url(href) {
            Some(anchor_link(els[0]))
        } else {
            fallback
        };
        assert forall|j: int| 0 <= j <= k - 1 implies (#[trigger] rest[j]).0[0] is Some by {
            assert(rest[j] == els[j + 1]);
        }
        assert forall|j: int| 0 <= j < k - 1 implies !(is_web_url(anchor_href(#[trigger] rest[j]))
            && label_matches(link_label(rest[j].1), needle)) by {
            assert(rest[j] == els[j + 1]);
        }
        assert(rest[k - 1] == els[k]);
        lemma_find_link_first_match(rest, needle, next, k - 1);
    }
}

/// The link found for copied `text` is the first http(s) anchor whose label
/// matches the text: where the anchors that `a[href]` selects in `html` carry an
/// address up to the `k`-th, the `k`-th anchor's trimmed address begins with
/// `http://` or `https://`, the normalized text is not empty, the anchor's label
/// (its text nodes joined by spaces, normalized) contains the normalized text or
/// is contained in it, and no earlier http(s) anchor's label does either, the
/// link found is that anchor's trimmed address, with its title and its domain.
pub proof fn lemma_first_matching_anchor_is_found(
    html: Seq<char>,
    text: Seq<char>,
    anchors: Seq<(Seq<Option<Seq<char>>>, Seq<Seq<char>>)>,
    k: int,
)
    requires
        html_select(html, "a[href]"@, seq!["href"@, "title"@]) == Some(anchors),
        0 <= k < anchors.len(),
        forall|j: int| 0 <= j <= k ==> (#[trigger] anchors[j]).0[0] is Some,
        starts_with(trim(anchors[k].0[0]->0), "http://"@) || starts_with(
            trim(anchors[k].0[0]->0),
            "https://"@,
        ),
        normalized_text(text).len() > 0,
        contains(normalized_text(join(anchors[k].1, seq![' '])), normalized_text(text)) || contains(
            normalized_text(text),
            normalized_text(join(anchors[k].1, seq![' '])),
        ),
        forall|j: int|
            0 <= j < k ==> !((starts_with(trim((#[trigger] anchors[j]).0[0]->0), "http://"@)
                || starts_with(trim(anchors[j].0[0]->0), "https://"@)) && (contains(
                normalized_text(join(anchors[j].1, seq![' '])),
                normalized_text(text),
            ) || contains(normalized_text(text), normalized_text(join(anchors[j].1, seq![' ']))))),
    ensures
        html_link(html, text) == Some(
            (
                trim(anchors[k].0[0]->0),
                link_title(anchors[k].0[1]),
                url_domain(trim(anchors[k].0[0]->0)),
            ),
        ),
{
    assert(anchor_attr_names() == seq!["href"@, "title"@]);
    lemma_find_link_first_match(anchors, normalized_text(text), None, k);
}

/// Where no http(s) anchor's label matches the copied `text`, the link found is
/// the first http(s) anchor: where every anchor that `a[href]` selects in `html`
/// carries an address, the `k`-th anchor's trimmed address begins with `http://`
/// or `https://` and no earlier one does, and no http(s) anchor's label contains
/// the non-empty normalized text or is contained in it, the link found is the
/// `k`-th anchor's trimmed address, with its title and its domain.
pub proof fn lemma_first_web_anchor_is_the_fallback(
    html: Seq<char>,
    text: Seq<char>,
    anchors: Seq<(Seq<Option<Seq<char>>>, Seq<Seq<char>>)>,
    k: int,
)
    requires
        html_select(html, "a[href]"@, seq!["href"@, "title"@]) == Some(anchors),
        0 <= k < anchors.len(),
        forall|j: int| 0 <= j < anchors.len() ==> (#[trigger] anchors[j]).0[0] is Some,
        starts_with(trim(anchors[k].0[0]->0), "http://"@) || starts_with(
            trim(anchors[k].0[0]->0),
            "https://"@,
        ),
        forall|j: int|
            0 <= j < k ==> !(starts_with(trim((#[trigger] anchors[j]).0[0]->0), "http://"@)
                || starts_with(trim(anchors[j].0[0]->0), "https://"@)),
        forall|j: int|
            0 <= j < anchors.len() ==> !((starts_with(
                trim((#[trigger] anchors[j]).0[0]->0),
                "http://"@,
            ) || starts_with(trim(anchors[j].0[0]->0), "https://"@)) && normalized_text(text).len()
                > 0 && (contains(normalized_text(join(anchors[j].1, seq![' '])), normalized_text(text))
                || contains(normalized_text(text), normalized_text(join(anchors[j].1, seq![' ']))))),
    ensures
        html_link(html, text) == Some(
            (
                trim(anchors[k].0[0]->0),
                link_title(anchors[k].0[1]),
                url_domain(trim(anchors[k].0[0]->0)),
            ),
        ),
{
    assert(anchor_attr_names() == seq!["href"@, "title"@]);
    lemma_find_link_first_web(anchors, normalized_text(text), k);
}

/// Where every anchor that `a[href]` selects in `html` carries an address and
/// none of the trimmed addresses begins with `http://` or `https://`, no link is
/// found.
pub proof fn lemma_no_web_anchor_no_link(
    html: Seq<char>,
    text: Seq<char>,
    anchors: Seq<(Seq<Option<Seq<char>>>, Seq<Seq<char>>)>,
)
    requires
        html_select(html, "a[href]"@, seq!["href"@, "title"@]) == Some(anchors),
        forall|j: int| 0 <= j < anchors.len() ==> (#[trigger] anchors[j]).0[0] is Some,
        forall|j: int|
            0 <= j < anchors.len() ==> !(starts_with(trim((#[trigger] anchors[j]).0[0]->0), "http://"@)
                || starts_with(trim(anchors[j].0[0]->0), "https://"@)),
    ensures
        html_link(html, text) is None,
{
    assert(anchor_attr_names() == seq!["href"@, "title"@]);
    lemma_find_link_keeps_fallback(anchors, normalized_text(text), None);
}

fn opt_trimmed_title(title: &Option<String>) -> (r: Option<String>)
    ensures
        opt_view(r) == link_title(opt_view(*title)),
{
    match title {
        Some(t) => {
            let tt = trim_str(t.as_str());
            if tt.as_str().is_empty() {
                None
            } else {
                Some(tt)
            }
        },
        None => None,
    }
}

/// The link in the copied `html` that `text` was copied from: the first http(s)
/// anchor whose label matches the text, else the first http(s) anchor.  Each is
/// given as its address, its title and its domain.
pub fn link_from_html(html: &str, text: &str) -> (r: Option<(String, Option<String>, Option<String>)>)
    ensures
        link_view(r) == html_link(html@, text@),
        r matches Some(l) ==> is_web_url(l.0@),
{
    let mut names: Vec<String> = Vec::new();
    names.push(String::from_str("href"));
    names.push(String::from_str("title"));
    assert(strings_view(names@) =~= anchor_attr_names());
    let els = match select_elements(html, "a[href]", &names) {
        Some(els) => els,
        None => {
            return None;
        },
    };
    let ghost all = els@.map_values(|e: HtmlElement| element_view(e));
    let needle = char_vec(normalize_text(text).as_str());
    let mut fallback: Option<(String, Option<String>, Option<String>)> = None;
    let n = els.len();
    assert(all.skip(0) == all);
    for i in 0..n
        invariant
            n == els@.len(),
            all == els@.map_values(|e: HtmlElement| element_view(e)),
            forall|k: int| 0 <= k < els@.len() ==> (#[trigger] els@[k]).attrs@.len() == 2,
            needle@ == normalized_text(text@),
            html_link(html@, text@) == find_link(all, needle@, None),
            link_view(fallback) matches Some(f) ==> is_web_url(f.0),
            find_link(all, needle@, None) == find_link(all.skip(i as int), needle@, link_view(fallback)),
    {
        let el = &els[i];
        let ghost rest = all.skip(i as int);
        assert(rest[0] == element_view(els@[i as int]));
        assert(rest.drop_first() == all.skip(i + 1));
        assert(el.attrs@.len() == 2);
        assert(rest[0].0[0] == opt_view(el.attrs@[0]));
        assert(rest[0].0[1] == opt_view(el.attrs@[1]));
        let raw = match &el.attrs[0] {
            Some(h) => h,
            None => {
                assert(find_link(rest, needle@, link_view(fallback)) == None::<
                    (Seq<char>, Option<Seq<char>>, Option<Seq<char>>),
                >);
                return None;
            },
        };
        let href = trim_chars(&char_vec(raw.as_str()));
        if starts_with_str(&href, "http://") || starts_with_str(&href, "https://") {
            let texts = char_vecs(&el.texts);
            let mut space: Vec<char> = Vec::new();
            space.push(' ');
            assert(space@ == seq![' ']);
            let joined = join_pieces(&texts, &space);
            let label = char_vec(normalize_text(string_of(&joined).as_str()).as_str());
            let title = opt_trimmed_title(&el.attrs[1]);
            let href_string = string_of(&href);
            let domain = domain_from_url(href_string.as_str());
            let candidate = (href_string, title, domain);
            assert(texts@.len() == el.texts@.len());
            assert(pieces_view(texts@) == rest[0].1);
            assert(label@ == link_label(rest[0].1));
            if needle.len() > 0 && (contains_chars(&label, &needle) || contains_chars(&needle, &label)) {
                assert(find_link(rest, needle@, link_view(fallback)) == link_view(Some(candidate)));
                return Some(candidate);
            }
            if fallback.is_none() {
                fallback = Some(candidate);
            }
        }
    }
    proof {
        assert(all.skip(n as int).len() == 0);
        lemma_find_link_web(all, needle@, None);
    }
    fallback
}

/// The link that `text` was copied from, looked up in the HTML flavour of the
/// clipboard (`clipboard_html`, where the clipboard holds one).
pub fn clipboard_link_for_text(clipboard_html: Option<String>, text: &str) -> (r: Option<
    (String, Option<String>, Option<String>),
>)
    ensures
        link_view(r) == match clipboard_html {
            Some(html) => html_link(html@, text@),
            None => None,
        },
{
    match clipboard_html {
        Some(html) => link_from_html(html.as_str(), text),
        None => None,
    }
}

/// The HTML flavour of the clipboard, given what the pasteboard tool printed
/// for it (`None` where it could not be read): the output trimmed, and only
/// where it holds markup.
pub fn clipboard_html(pasteboard_output: Option<String>) -> (r: Option<String>)
    ensures
        opt_view(r) == match pasteboard_output {
            Some(o) => if contains(trim(o@), "<"@) {
                Some(trim(o@))
            } else {
                None
            },
            None => None,
        },
{
    let output = match pasteboard_output {
        Some(o) => o,
        None => {
            return None;
        },
    };
    let t = trim_chars(&char_vec(output.as_str()));
    if contains_str(&t, "<") {
        Some(string_of(&t))
    } else {
        None
    }
}

// ---------------------------------------------------------------------------
// Bringing an application back to the front.
// ---------------------------------------------------------------------------

/// The characters of an AppleScript string literal that stand for `c`.
pub open spec fn escaped_char(c: char) -> Seq<char> {
    if c == '\\' {
        seq!['\\', '\\']
    } else if c == '"' {
        seq!['\\', '"']
    } else {
        seq![c]
    }
}

/// `s` escaped for an AppleScript string literal: each backslash doubled and
/// each double quote preceded by a backslash.
pub open spec fn escape_applescript(s: Seq<char>) -> Seq<char>
    decreases s.len(),
{
    if s.len() == 0 {
        Seq::<char>::empty()
    } else {
        escape_applescript(s.drop_last()) + escaped_char(s.last())
    }
}

/// The AppleScript that activates the application called `app_name`.
pub open spec fn activate_script_text(app_name: Seq<char>) -> Seq<char> {
    "tell application \""@ + escape_applescript(app_name) + "\" to activate"@
}

fn escape_for_applescript(s: &str) -> (r: Vec<char>)
    ensures
        r@ == escape_applescript(s@),
{
    let cs = char_vec(s);
    let mut r: Vec<char> = Vec::new();
    let n = cs.len();
    for i in 0..n
        invariant
            n == cs@.len(),
            r@ == escape_applescript(cs@.take(i as int)),
    {
        let c = cs[i];
        assert(cs@.take(i + 1).drop_last() == cs@.take(i as int));
        if c == '\\' {
            r.push('\\');
            r.push('\\');
        } else if c == '"' {
            r.push('\\');
            r.push('"');
        } else {
            r.push(c);
        }
        assert(r@ == escape_applescript(cs@.take(i + 1)));
    }
    assert(cs@.take(n as int) == cs@);
    r
}

/// The AppleScript that activates the application called `app_name`.
pub fn activate_script(app_name: &str) -> (r: String)
    ensures
        r@ == activate_script_text(app_name@),
{
    let escaped = string_of(&escape_for_applescript(app_name));
    let mut script = String::from_str("tell application \"");
    script.append(escaped.as_str());
    script.append("\" to activate");
    script
}

/// The message given when an application could not be brought back to the front.
pub open spec fn activate_failure_message(app_name: Seq<char>) -> Seq<char> {
    "Nie udało się przywrócić fokusa do aplikacji: "@ + app_name
}

/// The outcome of activating `app_name`, given what running the activation
/// script printed (`None` where it could not be run or failed).
pub fn activate_app(app_name: &str, script_output: Option<String>) -> (r: Result<(), String>)
    ensures
        r is Ok <==> script_output is Some,
        r matches Err(m) ==> m@ == activate_failure_message(app_name@),
{
    match script_output {
        Some(_) => Ok(()),
        None => {
            let mut message = String::from_str("Nie udało się przywrócić fokusa do aplikacji: ");
            message.append(app_name);
            Err(message)
        },
    }
}

/// The application to bring back to the front once the history window hides:
/// the application the copy came from, unless it is this application itself.
pub fn app_to_restore(source: SourceMetadata) -> (r: Option<String>)
    ensures
        opt_view(r) == match opt_view(source.app_name) {
            Some(name) => if mentions_own_app(lowercase(name)) {
                None
            } else {
                Some(name)
            },
            None => None,
        },
{
    match source.app_name {
        Some(name) => if is_clipvault_app(name.as_str()) {
            None
        } else {
            Some(name)
        },
        None => None,
    }
}

// ---------------------------------------------------------------------------
// The frontmost application and its browser tab.
// ---------------------------------------------------------------------------

/// `s` without one trailing carriage return.
pub open spec fn strip_cr(s: Seq<char>) -> Seq<char> {
    if s.len() > 0 && s.last() == '\r' {
        s.drop_last()
    } else {
        s
    }
}

/// Line `k` of the pieces of a text split at line feeds: a carriage return
/// before a line feed is dropped, and a last piece that is empty is no line.
pub open spec fn nth_line_of(pieces: Seq<Seq<char>>, k: int) -> Option<Seq<char>> {
    if 0 <= k < pieces.len() - 1 {
        Some(strip_cr(pieces[k]))
    } else if k == pieces.len() - 1 && pieces[k].len() > 0 {
        Some(pieces[k])
    } else {
        None
    }
}

/// Line `k` of `s` (`str::lines`).
pub open spec fn nth_line(s: Seq<char>, k: int) -> Option<Seq<char>> {
    nth_line_of(split_on(s, line_feed_sep()), k)
}

/// Line `k` of `s`, trimmed, where it exists and is not blank.
pub open spec fn present_line(s: Seq<char>, k: int) -> Option<Seq<char>> {
    match nth_line(s, k) {
        Some(l) => if trim(l).len() > 0 {
            Some(trim(l))
        } else {
            None
        },
        None => None,
    }
}

fn line_of(lines: &Vec<Vec<char>>, k: usize) -> (r: Option<Vec<char>>)
    requires
        lines@.len() >= 1,
    ensures
        match r {
            Some(l) => nth_line_of(pieces_view(lines@), k as int) == Some(l@),
            None => nth_line_of(pieces_view(lines@), k as int) is None,
        },
{
    let n = lines.len();
    if k < n - 1 {
        let p = &lines[k];
        if p.len() > 0 && p[p.len() - 1] == '\r' {
            let r = sub_chars(p, 0, p.len() - 1);
            assert(r@ == p@.drop_last());
            Some(r)
        } else {
            Some(p.clone())
        }
    } else if k == n - 1 && lines[k].len() > 0 {
        Some(lines[k].clone())
    } else {
        None
    }
}

/// The lines of `s`, split at line feeds.
fn lines_of(s: &str) -> (r: Vec<Vec<char>>)
    ensures
        pieces_view(r@) == split_on(s@, line_feed_sep()),
        r@.len() >= 1,
{
    let r = split_chars(&char_vec(s), Separator::LineFeed);
    proof {
        crate::text::lemma_split_on_len(s@, line_feed_sep());
    }
    r
}

fn present_line_of(lines: &Vec<Vec<char>>, k: usize) -> (r: Option<String>)
    requires
        lines@.len() >= 1,
    ensures
        opt_view(r) == match nth_line_of(pieces_view(lines@), k as int) {
            Some(l) => if trim(l).len() > 0 {
                Some(trim(l))
            } else {
                None
            },
            None => None,
        },
{
    match line_of(lines, k) {
        Some(l) => {
            let t = trim_chars(&l);
            if t.len() > 0 {
                Some(string_of(&t))
            } else {
                None
            }
        },
        None => None,
    }
}

/// What the frontmost-application script printed, read as the source of a copy:
/// its first line names the application and its second the front window.
pub fn front_app_source(output: Option<String>) -> (r: SourceMetadata)
    ensures
        opt_view(r.app_name) == match output {
            Some(o) => present_line(o@, 0),
            None => None,
        },
        opt_view(r.window_title) == match output {
            Some(o) => present_line(o@, 1),
            None => None,
        },
        r.page_url is None,
        r.page_title is None,
        r.domain is None,
{
    match output {
        Some(o) => {
            let lines = lines_of(o.as_str());
            SourceMetadata {
                app_name: present_line_of(&lines, 0),
                window_title: present_line_of(&lines, 1),
                page_url: None,
                page_title: None,
                domain: None,
            }
        },
        None => SourceMetadata {
            app_name: None,
            window_title: None,
            page_url: None,
            page_title: None,
            domain: None,
        },
    }
}

/// Whether the lowercased application name is that of Safari.
pub open spec fn is_safari(lower: Seq<char>) -> bool {
    contains(lower, "safari"@)
}

/// Whether the lowercased application name is that of a Chromium-based browser.
pub open spec fn is_chromium_browser(lower: Seq<char>) -> bool {
    ||| contains(lower, "google chrome"@)
    ||| contains(lower, "chrome"@)
    ||| contains(lower, "brave browser"@)
    ||| contains(lower, "microsoft edge"@)
    ||| contains(lower, "arc"@)
    ||| contains(lower, "dia"@)
    ||| contains(lower, "vivaldi"@)
    ||| contains(lower, "opera"@)
    ||| contains(lower, "chromium"@)
}

/// The text of a browser-tab script before the application name.
pub open spec fn tab_script_head() -> Seq<char> {
    "\ntell application \""@
}

/// The text of the script that reads Safari's current tab, after the application name.
pub open spec fn safari_script_tail() -> Seq<char> {
    "\"\n  try\n    set tabUrl to URL of current tab of front window\n    set tabTitle to name of current tab of front window\n    return tabUrl & linefeed & tabTitle\n  end try\nend tell\n"@
}

/// The text of the script that reads a Chromium browser's active tab, after the
/// application name.
pub open spec fn chromium_script_tail() -> Seq<char> {
    "\"\n  try\n    set tabUrl to URL of active tab of front window\n    set tabTitle to title of active tab of front window\n    return tabUrl & linefeed & tabTitle\n  end try\nend tell\n"@
}

/// The script that reads the address and title of the tab shown by the browser
/// called `app_name`: Safari's current-tab script, else a Chromium browser's
/// active-tab script, else nothing.
pub open spec fn tab_script(app_name: Seq<char>) -> Option<Seq<char>> {
    if is_safari(lowercase(app_name)) {
        Some(tab_script_head() + app_name + safari_script_tail())
    } else if is_chromium_browser(lowercase(app_name)) {
        Some(tab_script_head() + app_name + chromium_script_tail())
    } else {
        None
    }
}

/// Which browsers have their tab read: an application whose lowercased name
/// contains `safari` gets Safari's current-tab script; one whose lowercased name
/// does not, but contains one of `google chrome`, `chrome`, `brave browser`,
/// `microsoft edge`, `arc`, `dia`, `vivaldi`, `opera` or `chromium`, gets the
/// Chromium active-tab script; any other application gets none.
pub proof fn lemma_tab_script_by_browser_name(app_name: Seq<char>)
    ensures
        contains(lowercase(app_name), "safari"@) ==> tab_script(app_name) == Some(
            tab_script_head() + app_name + safari_script_tail(),
        ),
        !contains(lowercase(app_name), "safari"@) && (exists|name: Seq<char>|
            seq![
                "google chrome"@,
                "chrome"@,
                "brave browser"@,
                "microsoft edge"@,
                "arc"@,
                "dia"@,
                "vivaldi"@,
                "opera"@,
                "chromium"@,
            ].contains(name) && #[trigger] contains(lowercase(app_name), name)) ==> tab_script(
            app_name,
        ) == Some(tab_script_head() + app_name + chromium_script_tail()),
        !contains(lowercase(app_name), "safari"@) && !(exists|name: Seq<char>|
            seq![
                "google chrome"@,
                "chrome"@,
                "brave browser"@,
                "microsoft edge"@,
                "arc"@,
                "dia"@,
                "vivaldi"@,
                "opera"@,
                "chromium"@,
            ].contains(name) && #[trigger] contains(lowercase(app_name), name)) ==> tab_script(
            app_name,
        ) is None,
{
    let lower = lowercase(app_name);
    let names = seq![
        "google chrome"@,
        "chrome"@,
        "brave browser"@,
        "microsoft edge"@,
        "arc"@,
        "dia"@,
        "vivaldi"@,
        "opera"@,
        "chromium"@,
    ];
    assert(names[0] == "google chrome"@);
    assert(names[1] == "chrome"@);
    assert(names[2] == "brave browser"@);
    assert(names[3] == "microsoft edge"@);
    assert(names[4] == "arc"@);
    assert(names[5] == "dia"@);
    assert(names[6] == "vivaldi"@);
    assert(names[7] == "opera"@);
    assert(names[8] == "chromium"@);
    if exists|name: Seq<char>| names.contains(name) && #[trigger] contains(lower, name) {
        let name = choose|name: Seq<char>| names.contains(name) && #[trigger] contains(lower, name);
        let i = choose|i: int| 0 <= i < names.len() && names[i] == name;
        assert(is_chromium_browser(lower));
    }
    if is_chromium_browser(lower) {
        if contains(lower, "google chrome"@) {
            assert(names.contains("google chrome"@));
        } else if contains(lower, "chrome"@) {
            assert(names.contains("chrome"@));
        } else if contains(lower, "brave browser"@) {
            assert(names.contains("brave browser"@));
        } else if contains(lower, "microsoft edge"@) {
            assert(names.contains("microsoft edge"@));
        } else if contains(lower, "arc"@) {
            assert(names.contains("arc"@));
        } else if contains(lower, "dia"@) {
            assert(names.contains("dia"@));
        } else if contains(lower, "vivaldi"@) {
            assert(names.contains("vivaldi"@));
        } else if contains(lower, "opera"@) {
            assert(names.contains("opera"@));
        } else {
            assert(names.contains("chromium"@));
        }
    }
}

/// The script that reads the address and title of the tab shown by the browser
/// called `app_name`, or `None` where it is no browser that is known.
pub fn browser_tab_script(app_name: &str) -> (r: Option<String>)
    ensures
        opt_view(r) == tab_script(app_name@),
{
    let lower = char_vec(to_lowercase(app_name).as_str());
    if contains_str(&lower, "safari") {
        let mut script = String::from_str("\ntell application \"");
        script.append(app_name);
        script.append(
            "\"\n  try\n    set tabUrl to URL of current tab of front window\n    set tabTitle to name of current tab of front window\n    return tabUrl & linefeed & tabTitle\n  end try\nend tell\n",
        );
        Some(script)
    } else if contains_str(&lower, "google chrome") || contains_str(&lower, "chrome")
        || contains_str(&lower, "brave browser") || contains_str(&lower, "microsoft edge")
        || contains_str(&lower, "arc") || contains_str(&lower, "dia") || contains_str(
        &lower,
        "vivaldi",
    ) || contains_str(&lower, "opera") || contains_str(&lower, "chromium") {
        let mut script = String::from_str("\ntell application \"");
        script.append(app_name);
        script.append(
            "\"\n  try\n    set tabUrl to URL of active tab of front window\n    set tabTitle to title of active tab of front window\n    return tabUrl & linefeed & tabTitle\n  end try\nend tell\n",
        );
        Some(script)
    } else {
        None
    }
}

/// The tab that a browser-tab script printed: its first line is the address,
/// its second the title; only http(s) addresses count.
pub open spec fn browser_tab_of(output: Seq<char>) -> Option<(Seq<char>, Seq<char>)> {
    match nth_line(output, 0) {
        Some(first) => {
            let url = trim(first);
            let title = match nth_line(output, 1) {
                Some(second) => trim(second),
                None => Seq::<char>::empty(),
            };
            if is_web_url(url) {
                Some((url, title))
            } else {
                None
            }
        },
        None => None,
    }
}

/// A browser tab is read only from an http(s) address: the script's output
/// gives a tab exactly when its first line, trimmed, begins with `http://` or
/// `https://`, and the tab's address is that trimmed first line.
pub proof fn lemma_browser_tab_is_web_address(output: Seq<char>)
    ensures
        browser_tab_of(output) is Some <==> (nth_line(output, 0) matches Some(first) && (starts_with(
            trim(first),
            "http://"@,
        ) || starts_with(trim(first), "https://"@))),
        browser_tab_of(output) matches Some((url, title)) ==> (nth_line(output, 0) matches Some(
            first,
        ) && trim(first) == url) && trim(url) == url,
{
    match nth_line(output, 0) {
        Some(first) => lemma_trim_idempotent(first),
        None => {},
    }
}

/// The address and title of the browser tab that a browser-tab script printed.
pub fn browser_tab(output: &str) -> (r: Option<(String, String)>)
    ensures
        match r {
            Some((url, title)) => browser_tab_of(output@) == Some((url@, title@)),
            None => browser_tab_of(output@) is None,
        },
{
    let lines = lines_of(output);
    let first = match line_of(&lines, 0) {
        Some(l) => l,
        None => {
            return None;
        },
    };
    let url = trim_chars(&first);
    let title = match line_of(&lines, 1) {
        Some(l) => trim_chars(&l),
        None => Vec::new(),
    };
    if starts_with_str(&url, "http://") || starts_with_str(&url, "https://") {
        Some((string_of(&url), string_of(&title)))
    } else {
        None
    }
}

/// The source of a copy: what is known of the frontmost application (`front`),
/// completed with the browser tab that `tab_output` describes, where the
/// application is known and the output names an http(s) tab.  The page title
/// falls back to the window title where the tab has none.
pub fn detect_source(front: SourceMetadata, tab_output: Option<String>) -> (r: SourceMetadata)
    ensures
        front.app_name is None ==> r == front,
        front.app_name is Some ==> match (match tab_output {
            Some(o) => browser_tab_of(o@),
            None => None,
        }) {
            Some((url, title)) => {
                &&& r.app_name == front.app_name
                &&& r.window_title == front.window_title
                &&& opt_view(r.page_url) == Some(url)
                &&& opt_view(r.page_title) == if trim(title).len() == 0 {
                    opt_view(front.window_title)
                } else {
                    Some(title)
                }
                &&& opt_view(r.domain) == url_domain(url)
            },
            None => r == front,
        },
{
    if front.app_name.is_none() {
        return front;
    }
    let tab = match tab_output {
        Some(o) => browser_tab(o.as_str()),
        None => None,
    };
    match tab {
        Some((url, title)) => {
            let mut source = front;
            source.domain = domain_from_url(url.as_str());
            source.page_url = Some(url);
            let blank = trim_str(title.as_str()).as_str().is_empty();
            source.page_title = if blank {
                copy_opt(&source.window_title)
            } else {
                Some(title)
            };
            source
        },
        None => front,
    }
}

} // verus!
