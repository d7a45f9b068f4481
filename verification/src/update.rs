use vstd::prelude::*;
use crate::first::{first_where, is_first_where, lemma_first_where};
use crate::text::{chars_of, string_from_chars};

verus! {

/// The predicate "is `c`".
pub open spec fn equals_char(c: char) -> spec_fn(char) -> bool {
    |x: char| x == c
}

/// Index of the first `c` in `s`, if any.
pub open spec fn char_position(s: Seq<char>, c: char) -> Option<int> {
    first_where(s, equals_char(c))
}

/// The part of `s` before its first `c`; all of `s` when it holds none
/// (what `s.split(c).next()` gives).
pub open spec fn before_first(s: Seq<char>, c: char) -> Seq<char> {
    match char_position(s, c) {
        Some(i) => s.take(i),
        None => s,
    }
}

/// The part of `s` after its first `c`, if it holds one.
pub open spec fn after_first(s: Seq<char>, c: char) -> Option<Seq<char>> {
    match char_position(s, c) {
        Some(i) => Some(s.skip(i + 1)),
        None => None,
    }
}

/// `s` without its leading `c`s.
pub open spec fn trim_leading(s: Seq<char>, c: char) -> Seq<char>
    decreases s.len(),
{
    if s.len() > 0 && s[0] == c {
        trim_leading(s.drop_first(), c)
    } else {
        s
    }
}

proof fn lemma_char_position(s: Seq<char>, c: char)
    ensures
        char_position(s, c) matches Some(i) ==> is_first_where(s, equals_char(c), i),
        char_position(s, c) is None ==> forall|j: int| 0 <= j < s.len() ==> s[j] != c,
        forall|i: int| #[trigger] is_first_where(s, equals_char(c), i) ==> char_position(s, c) == Some(i),
{
    lemma_first_where(s, equals_char(c));
}

/// Index of the first `c` in `s`.
fn find_char(s: &Vec<char>, c: char) -> (pos: Option<usize>)
    ensures
        match pos {
            Some(i) => char_position(s@, c) == Some(i as int),
            None => char_position(s@, c) is None,
        },
{
    proof {
        lemma_char_position(s@, c);
    }
    let mut i: usize = 0;
    while i < s.len()
        invariant
            i <= s@.len(),
            forall|j: int| 0 <= j < i ==> s@[j] != c,
            char_position(s@, c) is None ==> forall|j: int| 0 <= j < s@.len() ==> s@[j] != c,
            forall|k: int| #[trigger] is_first_where(s@, equals_char(c), k) ==> char_position(s@, c) == Some(k),
        decreases s@.len() - i,
    {
        if s[i] == c {
            assert(is_first_where(s@, equals_char(c), i as int));
            return Some(i);
        }
        i = i + 1;
    }
    None
}

/// The characters of `s` from `from` to `to`.
fn sub_chars(s: &Vec<char>, from: usize, to: usize) -> (out: Vec<char>)
    requires
        from <= to <= s@.len(),
    ensures
        out@ == s@.subrange(from as int, to as int),
{
    vstd::slice::slice_to_vec(vstd::slice::slice_subrange(s.as_slice(), from, to))
}

/// `before_first` on a character vector.
fn chars_before_first(s: &Vec<char>, c: char) -> (out: Vec<char>)
    ensures
        out@ == before_first(s@, c),
{
    proof {
        lemma_char_position(s@, c);
    }
    match find_char(s, c) {
        Some(i) => sub_chars(s, 0, i),
        None => sub_chars(s, 0, s.len()),
    }
}

/// `after_first` on a character vector.
fn chars_after_first(s: &Vec<char>, c: char) -> (out: Option<Vec<char>>)
    ensures
        match out {
            Some(v) => after_first(s@, c) == Some(v@),
            None => after_first(s@, c) is None,
        },
{
    proof {
        lemma_char_position(s@, c);
    }
    match find_char(s, c) {
        Some(i) => {
            let n = s.len();
            assert(i < n);
            Some(sub_chars(s, i + 1, n))
        },
        None => None,
    }
}

/// `trim_leading` on a character vector.
fn chars_trim_leading(s: &Vec<char>, c: char) -> (out: Vec<char>)
    ensures
        out@ == trim_leading(s@, c),
{
    let mut i: usize = 0;
    assert(s@.skip(0) =~= s@);
    while i < s.len() && s[i] == c
        invariant
            i <= s@.len(),
            trim_leading(s@, c) == trim_leading(s@.skip(i as int), c),
        decreases s@.len() - i,
    {
        assert(s@.skip(i as int).drop_first() =~= s@.skip(i + 1));
        i = i + 1;
    }
    sub_chars(s, i, s.len())
}

/// Whether two character vectors are equal.
fn chars_equal(a: &Vec<char>, b: &Vec<char>) -> (eq: bool)
    ensures
        eq == (a@ == b@),
{
    if a.len() != b.len() {
        return false;
    }
    let mut i: usize = 0;
    while i < a.len()
        invariant
            i <= a@.len(),
            a@.len() == b@.len(),
            forall|j: int| 0 <= j < i ==> a@[j] == b@[j],
        decreases a@.len() - i,
    {
        if a[i] != b[i] {
            return false;
        }
        i = i + 1;
    }
    assert(a@ =~= b@);
    true
}

/// A release of the project, as far as the update check reads it: tag name, page URL,
/// and the draft and prerelease flags (each absent when the listing does not give it with
/// the expected JSON type).
pub struct ReleaseInfo {
    pub tag_name: Option<String>,
    pub html_url: Option<String>,
    pub draft: Option<bool>,
    pub prerelease: Option<bool>,
}

/// A release by value: tag name, page URL, draft flag, prerelease flag.
pub type ReleaseView = (Option<Seq<char>>, Option<Seq<char>>, Option<bool>, Option<bool>);

pub open spec fn string_opt_view(s: Option<String>) -> Option<Seq<char>> {
    match s {
        Some(t) => Some(t@),
        None => None,
    }
}

impl ReleaseInfo {
    pub open spec fn view(&self) -> ReleaseView {
        (string_opt_view(self.tag_name), string_opt_view(self.html_url), self.draft, self.prerelease)
    }
}

pub open spec fn release_views(rs: Seq<ReleaseInfo>) -> Seq<ReleaseView> {
    rs.map_values(|r: ReleaseInfo| r.view())
}

/// Whether a release's version suffix (after the first '-') fits the running version's:
/// both the same, both absent, or none running and "auto" released (the way over from
/// builds without a suffix).
pub open spec fn suffix_matches(current: Option<Seq<char>>, release: Option<Seq<char>>) -> bool {
    match (current, release) {
        (Some(c), Some(r)) => c == r,
        (None, None) => true,
        (None, Some(r)) => r == "auto"@,
        _ => false,
    }
}

/// The version a release offers to a running `current` version, if it is an update
/// candidate: its tag without leading 'v's, of the same major version (the part before
/// the first '.'), with a fitting suffix, neither a draft nor a prerelease.
pub open spec fn offered_version(current: Seq<char>, r: ReleaseView) -> Option<Seq<char>> {
    match r.0 {
        Some(tag) => {
            let version = trim_leading(tag, 'v');
            if before_first(version, '.') == before_first(current, '.')
                && suffix_matches(after_first(current, '-'), after_first(version, '-'))
                && !r.2.unwrap_or(false) && !r.3.unwrap_or(false) {
                Some(version)
            } else {
                None
            }
        },
        None => None,
    }
}

/// The update offered to `current`: the version and URL (empty when absent) of the first
/// release that is a candidate, or two empty strings.
pub open spec fn update_for(current: Seq<char>, rs: Seq<ReleaseView>) -> (Seq<char>, Seq<char>)
    decreases rs.len(),
{
    if rs.len() == 0 {
        (Seq::empty(), Seq::empty())
    } else {
        match offered_version(current, rs[0]) {
            Some(version) => (version, rs[0].1.unwrap_or(Seq::empty())),
            None => update_for(current, rs.drop_first()),
        }
    }
}

/// An update: its version and page URL (both empty when there is none).
pub struct UpdateInfo {
    pub tag: String,
    pub url: String,
}

/// Picks the update for the running version from a releases listing (see `update_for`).
pub fn find_update(current_version: &str, releases: &Vec<ReleaseInfo>) -> (update: UpdateInfo)
    ensures
        (update.tag@, update.url@) == update_for(current_version@, release_views(releases@)),
{
    let ghost rs = release_views(releases@);
    let current = chars_of(current_version);
    let current_major = chars_before_first(&current, '.');
    let current_suffix = chars_after_first(&current, '-');
    let auto = chars_of("auto");
    let mut i: usize = 0;
    assert(rs.skip(0) =~= rs);
    while i < releases.len()
        invariant
            i <= releases@.len(),
            rs == release_views(releases@),
            current@ == current_version@,
            current_major@ == before_first(current@, '.'),
            match current_suffix {
                Some(v) => after_first(current@, '-') == Some(v@),
                None => after_first(current@, '-') is None,
            },
            auto@ == "auto"@,
            update_for(current@, rs) == update_for(current@, rs.skip(i as int)),
        decreases releases@.len() - i,
    {
        let r = &releases[i];
        assert(rs.skip(i as int)[0] == r.view());
        assert(rs.skip(i as int).drop_first() =~= rs.skip(i + 1));
        match &r.tag_name {
            Some(tag) => {
                let version = chars_trim_leading(&chars_of(tag.as_str()), 'v');
                let major = chars_before_first(&version, '.');
                if chars_equal(&major, &current_major) {
                    let suffix = chars_after_first(&version, '-');
                    let fits = match (&current_suffix, &suffix) {
                        (Some(c), Some(s)) => chars_equal(c, s),
                        (None, None) => true,
                        (None, Some(s)) => chars_equal(s, &auto),
                        _ => false,
                    };
                    let draft = match r.draft { Some(b) => b, None => false };
                    let prerelease = match r.prerelease { Some(b) => b, None => false };
                    if fits && !draft && !prerelease {
                        let url = match &r.html_url {
                            Some(u) => u.clone(),
                            None => String::new(),
                        };
                        return UpdateInfo { tag: string_from_chars(version), url };
                    }
                }
            },
            None => {},
        }
        i = i + 1;
    }
    UpdateInfo { tag: String::new(), url: String::new() }
}


proof fn lemma_trim_leading(s: Seq<char>, c: char)
    ensures
        trim_leading(s, c).len() > 0 ==> trim_leading(s, c)[0] != c,
    decreases s.len(),
{
    if s.len() > 0 && s[0] == c {
        lemma_trim_leading(s.drop_first(), c);
    }
}

/// An offered update is of the running major version, its fitting suffix and not a draft
/// or prerelease; its version does not start with 'v'.
pub proof fn lemma_update_same_major(current: Seq<char>, rs: Seq<ReleaseView>)
    ensures
        ({
            let (version, _) = update_for(current, rs);
            version.len() > 0 ==> {
                &&& before_first(version, '.') == before_first(current, '.')
                &&& suffix_matches(after_first(current, '-'), after_first(version, '-'))
                &&& version[0] != 'v'
                // Suffixes, compared directly: a suffixed build is offered only releases of
                // the very same suffix; a build without one only releases without one or
                // with "auto".
                &&& (after_first(current, '-') is Some ==> after_first(version, '-') == after_first(current, '-'))
                &&& (after_first(current, '-') is None ==> (after_first(version, '-') is None
                    || after_first(version, '-') == Some("auto"@)))
            }
        }),
        // What is offered comes from a tagged release that is neither a draft nor a
        // prerelease, with that release's URL.
        ({
            let (version, url) = update_for(current, rs);
            version.len() > 0 ==> exists|i: int| 0 <= i < rs.len() && {
                &&& #[trigger] rs[i].0 matches Some(tag)
                &&& version == trim_leading(tag, 'v')
                &&& rs[i].2 != Some(true)
                &&& rs[i].3 != Some(true)
                &&& url == match rs[i].1 { Some(u) => u, None => Seq::empty() }
            }
        }),
    decreases rs.len(),
{
    if rs.len() > 0 {
        match offered_version(current, rs[0]) {
            Some(version) => {
                lemma_trim_leading(rs[0].0.unwrap(), 'v');
                assert(rs[0].0 is Some);
            },
            None => {
                lemma_update_same_major(current, rs.drop_first());
                let (v, u) = update_for(current, rs.drop_first());
                if v.len() > 0 {
                    let i = choose|i: int| 0 <= i < rs.drop_first().len() && {
                        &&& #[trigger] rs.drop_first()[i].0 matches Some(tag)
                        &&& v == trim_leading(tag, 'v')
                        &&& rs.drop_first()[i].2 != Some(true)
                        &&& rs.drop_first()[i].3 != Some(true)
                        &&& u == match rs.drop_first()[i].1 { Some(x) => x, None => Seq::empty() }
                    };
                    assert(rs[i + 1] == rs.drop_first()[i]);
                }
            },
        }
    }
}

/// A character sequence splits at its first `c`: the part before it holds no `c`, and when
/// there is a `c` the sequence is that part, `c`, and the part after it; otherwise it is
/// all "before".
pub proof fn lemma_split_at_first(s: Seq<char>, c: char)
    ensures
        forall|j: int| 0 <= j < before_first(s, c).len() ==> before_first(s, c)[j] != c,
        after_first(s, c) matches Some(rest) ==> s == before_first(s, c) + seq![c] + rest,
        after_first(s, c) is None ==> before_first(s, c) == s,
{
    lemma_char_position(s, c);
    if let Some(i) = char_position(s, c) {
        assert(s =~= s.take(i) + seq![c] + s.skip(i + 1));
    }
}

/// The releases read from a releases listing: for each element of the JSON array that
/// `serde_json` parses from `body`, its "tag_name", "html_url", "draft" and "prerelease"
/// fields (by view); `None` when `body` is not a JSON array.
pub uninterp spec fn release_listing(body: Seq<char>) -> Option<Seq<ReleaseView>>;

/// Parses a releases listing with `serde_json::from_str` into a vector of JSON values and
/// reads, from each, the string fields "tag_name" and "html_url" (`Value::as_str`) and the
/// boolean fields "draft" and "prerelease" (`Value::as_bool`). The contract names the
/// outcome `release_listing(body@)` and states no more of it: what JSON parsing gives is
/// left to `serde_json`.
#[verifier::external_body]
fn parse_release_listing(body: &str) -> (releases: Option<Vec<ReleaseInfo>>)
    ensures
        match releases {
            Some(v) => release_listing(body@) == Some(release_views(v@)),
            None => release_listing(body@) is None,
        },
{
    let values: Vec<serde_json::Value> = serde_json::from_str(body).ok()?;
    Some(values.iter().map(|v| ReleaseInfo {
        tag_name: v["tag_name"].as_str().map(|t| t.to_string()),
        html_url: v["html_url"].as_str().map(|u| u.to_string()),
        draft: v["draft"].as_bool(),
        prerelease: v["prerelease"].as_bool(),
    }).collect())
}

/// The update for the running version from the body of the releases listing: the one
/// `find_update` picks, or two empty strings when the body is not a JSON array.
pub fn check_update(current_version: &str, listing: &str) -> (update: UpdateInfo)
    ensures
        (update.tag@, update.url@) == match release_listing(listing@) {
            Some(rs) => update_for(current_version@, rs),
            None => (Seq::<char>::empty(), Seq::<char>::empty()),
        },
{
    match parse_release_listing(listing) {
        Some(releases) => find_update(current_version, &releases),
        None => UpdateInfo { tag: String::new(), url: String::new() },
    }
}

} // verus!
