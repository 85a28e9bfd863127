//! Versions and releases: which of two version strings is newer, and what the
//! latest-release document of the project's repository offers.
use vstd::prelude::*;
use crate::json::{json_strings, json_values};
use crate::text::{
    char_run_end, dec, lemma_dec_parses, lemma_dec_plain, all_digits, chars_of, dec_value, lemma_dec_value_nonneg, ends_with, parse_digits, push_str, split, split_ranges,
    str_ends_with, string_from, trim_start_char, trim_start_matches, views,
};

verus! {

/// The file that each release carries for download.
pub const RELEASE_ASSET: &'static str = "rmpyou-x86_64-pc-windows-msvc.zip";

/// What `str::parse::<u64>` makes of one part of a version, with 0 where it fails:
/// an optional `+`, then one or more ASCII digits whose number fits in a `u64`.
pub open spec fn part_value(p: Seq<char>) -> int {
    let d = if p.len() > 1 && p[0] == '+' {
        p.drop_first()
    } else {
        p
    };
    if d.len() > 0 && all_digits(d) && dec_value(d) <= u64::MAX {
        dec_value(d)
    } else {
        0
    }
}

/// The numbers of the dot-separated parts of a version.
pub open spec fn version_parts(s: Seq<char>) -> Seq<int> {
    split(s, '.').map_values(|p: Seq<char>| part_value(p))
}

/// Whether `a` comes after `b` in the lexicographic order of sequences (the order of
/// `Vec`): at the first place where they differ `a` is larger, or `b` is a proper
/// prefix of `a`.
pub open spec fn lex_greater(a: Seq<int>, b: Seq<int>) -> bool
    decreases a.len(),
{
    if a.len() == 0 {
        false
    } else if b.len() == 0 {
        true
    } else if a[0] != b[0] {
        a[0] > b[0]
    } else {
        lex_greater(a.drop_first(), b.drop_first())
    }
}

/// Whether version `candidate` is newer than version `current`.
pub open spec fn newer(candidate: Seq<char>, current: Seq<char>) -> bool {
    lex_greater(version_parts(candidate), version_parts(current))
}

/// The numbers of the parts of version `s`.
fn version_numbers(s: &str) -> (r: Vec<u64>)
    ensures
        r.len() == version_parts(s@).len(),
        forall|k: int| 0 <= k < r.len() ==> r@[k] as int == #[trigger] version_parts(s@)[k],
{
    let v = chars_of(s);
    assert(v@.subrange(0, v.len() as int) =~= s@);
    let parts = split_ranges(&v, 0, v.len(), '.');
    let ghost sp = split(s@, '.');
    let mut r: Vec<u64> = Vec::new();
    let mut k: usize = 0;
    while k < parts.len()
        invariant
            v@ == s@,
            sp == split(s@, '.'),
            parts.len() == sp.len(),
            forall|m: int|
                0 <= m < parts.len() ==> (#[trigger] parts@[m]).0 <= parts@[m].1 <= v.len()
                    && v@.subrange(parts@[m].0 as int, parts@[m].1 as int) == sp[m],
            0 <= k <= parts.len(),
            r.len() == k,
            forall|m: int| 0 <= m < k ==> r@[m] as int == part_value(#[trigger] sp[m]),
        decreases parts.len() - k,
    {
        let (a, b) = parts[k];
        let ghost p = sp[k as int];
        assert(v@.subrange(a as int, b as int) == p);
        assert(p.len() == b - a);
        assert(b - a > 0 ==> p[0] == v@[a as int]);
        let n = if b - a > 1 && v[a] == '+' {
            assert(v@.subrange(a + 1, b as int) =~= p.drop_first());
            parse_digits(&v, a + 1, b, u64::MAX)
        } else {
            parse_digits(&v, a, b, u64::MAX)
        };
        let x = match n {
            Some(x) => x,
            None => 0,
        };
        proof {
            let d = if p.len() > 1 && p[0] == '+' {
                p.drop_first()
            } else {
                p
            };
            if all_digits(d) {
                lemma_dec_value_nonneg(d);
            }
        }
        assert(x as int == part_value(p));
        r.push(x);
        k += 1;
    }
    r
}

proof fn lemma_lex_skip(a: Seq<int>, b: Seq<int>, i: int)
    requires
        0 <= i < a.len(),
        i < b.len(),
    ensures
        a.skip(i)[0] == a[i],
        b.skip(i)[0] == b[i],
        a.skip(i).drop_first() == a.skip(i + 1),
        b.skip(i).drop_first() == b.skip(i + 1),
{
    assert(a.skip(i).drop_first() =~= a.skip(i + 1));
    assert(b.skip(i).drop_first() =~= b.skip(i + 1));
}

/// Whether version `candidate` is newer than version `current`: the dot-separated
/// parts compare as numbers, left to right, and a part that is not a number counts
/// as 0; "1.10.0" is newer than "1.9.3".
pub fn is_newer(candidate: &str, current: &str) -> (b: bool)
    ensures
        b == newer(candidate@, current@),
{
    let a = version_numbers(candidate);
    let c = version_numbers(current);
    let ghost pa = version_parts(candidate@);
    let ghost pc = version_parts(current@);
    assert(pa.skip(0) =~= pa);
    assert(pc.skip(0) =~= pc);
    let mut i: usize = 0;
    while i < a.len() && i < c.len()
        invariant
            pa == version_parts(candidate@),
            pc == version_parts(current@),
            a.len() == pa.len(),
            c.len() == pc.len(),
            forall|k: int| 0 <= k < a.len() ==> a@[k] as int == #[trigger] pa[k],
            forall|k: int| 0 <= k < c.len() ==> c@[k] as int == #[trigger] pc[k],
            i <= a.len(),
            i <= c.len(),
            lex_greater(pa, pc) == lex_greater(pa.skip(i as int), pc.skip(i as int)),
        decreases a.len() - i,
    {
        proof {
            lemma_lex_skip(pa, pc, i as int);
        }
        if a[i] != c[i] {
            assert(pa[i as int] != pc[i as int]);
            assert(lex_greater(pa.skip(i as int), pc.skip(i as int)) == (pa[i as int] > pc[i as int]));
            let r = a[i] > c[i];
            assert(r == (pa[i as int] > pc[i as int]));
            assert(r == lex_greater(pa, pc));
            return r;
        }
        i += 1;
    }
    i < a.len()
}

// ---------------------------------------------------------------- laws of the order

proof fn lemma_lex_irreflexive(a: Seq<int>)
    ensures
        !lex_greater(a, a),
    decreases a.len(),
{
    if a.len() > 0 {
        lemma_lex_irreflexive(a.drop_first());
    }
}

proof fn lemma_lex_asymmetric(a: Seq<int>, b: Seq<int>)
    ensures
        !(lex_greater(a, b) && lex_greater(b, a)),
    decreases a.len(),
{
    if a.len() > 0 && b.len() > 0 && a[0] == b[0] {
        lemma_lex_asymmetric(a.drop_first(), b.drop_first());
    }
}

proof fn lemma_lex_transitive(a: Seq<int>, b: Seq<int>, c: Seq<int>)
    requires
        lex_greater(a, b),
        lex_greater(b, c),
    ensures
        lex_greater(a, c),
    decreases a.len(),
{
    if a.len() > 0 && b.len() > 0 && c.len() > 0 && a[0] == b[0] && b[0] == c[0] {
        lemma_lex_transitive(a.drop_first(), b.drop_first(), c.drop_first());
    }
}

proof fn lemma_lex_total(a: Seq<int>, b: Seq<int>)
    requires
        a != b,
    ensures
        lex_greater(a, b) || lex_greater(b, a),
    decreases a.len(),
{
    if a.len() > 0 && b.len() > 0 && a[0] == b[0] {
        if a.drop_first() == b.drop_first() {
            assert(a =~= seq![a[0]] + a.drop_first());
            assert(b =~= seq![b[0]] + b.drop_first());
        }
        lemma_lex_total(a.drop_first(), b.drop_first());
    } else if a.len() == 0 && b.len() == 0 {
        assert(a =~= b);
    }
}

proof fn lemma_lex_first_difference(a: Seq<int>, b: Seq<int>, i: int)
    requires
        0 <= i < a.len(),
        i < b.len(),
        forall|j: int| 0 <= j < i ==> a[j] == b[j],
        a[i] != b[i],
    ensures
        lex_greater(a, b) == (a[i] > b[i]),
    decreases i,
{
    if i > 0 {
        lemma_lex_first_difference(a.drop_first(), b.drop_first(), i - 1);
    }
}

proof fn lemma_lex_prefix(a: Seq<int>, b: Seq<int>)
    requires
        forall|j: int| 0 <= j < a.len() && j < b.len() ==> a[j] == b[j],
    ensures
        lex_greater(a, b) == (a.len() > b.len()),
    decreases a.len(),
{
    if a.len() > 0 && b.len() > 0 {
        lemma_lex_prefix(a.drop_first(), b.drop_first());
    }
}

/// Versions compare at their first differing part, whatever their lengths: where the
/// parts before place `i` agree and part `i` differs, the version whose part `i` is
/// larger is the newer ("1.10" is newer than "1.9.3").
pub proof fn law_newer_first_difference(a: Seq<char>, b: Seq<char>, i: int)
    requires
        0 <= i < version_parts(a).len(),
        i < version_parts(b).len(),
        forall|j: int| 0 <= j < i ==> version_parts(a)[j] == version_parts(b)[j],
        version_parts(a)[i] != version_parts(b)[i],
    ensures
        newer(a, b) <==> version_parts(a)[i] > version_parts(b)[i],
{
    lemma_lex_first_difference(version_parts(a), version_parts(b), i);
}

/// Where one version's parts start the other's, the one with more parts is the newer
/// ("1.0.0" is newer than "1.0", and neither of two equal versions is newer).
pub proof fn law_newer_prefix(a: Seq<char>, b: Seq<char>)
    requires
        forall|j: int|
            0 <= j < version_parts(a).len() && j < version_parts(b).len() ==> version_parts(a)[j]
                == version_parts(b)[j],
    ensures
        newer(a, b) <==> version_parts(a).len() > version_parts(b).len(),
{
    lemma_lex_prefix(version_parts(a), version_parts(b));
}

/// A version's parts are the numbers between its dots: one part per dot-separated
/// piece, and a piece of decimal digits (with an optional `+`) that fits in a `u64`
/// counts as its number.
pub proof fn law_version_parts(s: Seq<char>, i: int, n: nat)
    requires
        0 <= i < split(s, '.').len(),
        n <= u64::MAX,
    ensures
        version_parts(s).len() == split(s, '.').len(),
        split(s, '.')[i] == dec(n) ==> version_parts(s)[i] == n,
        split(s, '.')[i] == seq!['+'] + dec(n) ==> version_parts(s)[i] == n,
{
    lemma_dec_parses(n);
    let d = dec(n);
    if split(s, '.')[i] == seq!['+'] + d {
        assert((seq!['+'] + d).drop_first() =~= d);
    }
    if split(s, '.')[i] == d {
        assert(d[0] != '+') by {
            lemma_dec_plain(n);
        }
    }
}

/// No version is newer than itself.
pub proof fn law_newer_irreflexive(v: Seq<char>)
    ensures
        !newer(v, v),
{
    lemma_lex_irreflexive(version_parts(v));
}

/// Of two versions, at most one is newer than the other.
pub proof fn law_newer_asymmetric(a: Seq<char>, b: Seq<char>)
    ensures
        !(newer(a, b) && newer(b, a)),
{
    lemma_lex_asymmetric(version_parts(a), version_parts(b));
}

/// A version newer than one that is newer than a third is newer than the third.
pub proof fn law_newer_transitive(a: Seq<char>, b: Seq<char>, c: Seq<char>)
    requires
        newer(a, b),
        newer(b, c),
    ensures
        newer(a, c),
{
    lemma_lex_transitive(version_parts(a), version_parts(b), version_parts(c));
}

/// Of two versions whose parts are not the same numbers, one is newer than the other.
pub proof fn law_newer_total(a: Seq<char>, b: Seq<char>)
    requires
        version_parts(a) != version_parts(b),
    ensures
        newer(a, b) || newer(b, a),
{
    lemma_lex_total(version_parts(a), version_parts(b));
}


// ---------------------------------------------------------------- releases

/// The first string of `us`, from index `i` on, that ends with `suffix`.
pub open spec fn first_ending(us: Seq<Seq<char>>, suffix: Seq<char>, i: int) -> Option<Seq<char>>
    decreases us.len() - i,
{
    if i < 0 || i >= us.len() {
        None
    } else if ends_with(us[i], suffix) {
        Some(us[i])
    } else {
        first_ending(us, suffix, i + 1)
    }
}

/// What a latest-release document `body` offers to a build of version `current`:
/// an error where it names no release; else the version of its first `tag_name`,
/// without leading `v`s, with the first download URL that ends in the release
/// asset, where there is such a URL and that version is newer than `current`;
/// else nothing.
pub open spec fn release_offer(body: Seq<char>, current: Seq<char>) -> Result<
    Option<(Seq<char>, Seq<char>)>,
    Seq<char>,
> {
    let tags = json_values(body, "tag_name"@);
    if tags.len() == 0 {
        Err("no releases"@)
    } else {
        let version = trim_start_char(tags[0], 'v');
        match first_ending(json_values(body, "browser_download_url"@), RELEASE_ASSET@, 0) {
            Some(url) => if newer(version, current) {
                Ok(Some((version, url)))
            } else {
                Ok(None)
            },
            None => Ok(None),
        }
    }
}

proof fn lemma_first_ending(us: Seq<Seq<char>>, suffix: Seq<char>, i: int)
    ensures
        first_ending(us, suffix, i) matches Some(u) ==> ends_with(u, suffix) && us.contains(u),
    decreases us.len() - i,
{
    if 0 <= i < us.len() {
        if ends_with(us[i], suffix) {
            assert(us[i] == us[i]);
        } else {
            lemma_first_ending(us, suffix, i + 1);
        }
    }
}

/// A release is offered only where it is newer than the running build, never the
/// running version itself, and its download is one of the document's URLs that ends
/// with the release asset.
pub proof fn law_offer_is_newer(body: Seq<char>, current: Seq<char>)
    ensures
        release_offer(body, current) matches Ok(Some((v, u))) ==> {
            &&& newer(v, current)
            &&& version_parts(v) != version_parts(current)
            &&& ends_with(u, RELEASE_ASSET@)
            &&& json_values(body, "browser_download_url"@).contains(u)
        },
{
    lemma_first_ending(json_values(body, "browser_download_url"@), RELEASE_ASSET@, 0);
    if let Ok(Some((v, u))) = release_offer(body, current) {
        if version_parts(v) == version_parts(current) {
            lemma_lex_irreflexive(version_parts(v));
        }
    }
}

proof fn lemma_char_run_end(s: Seq<char>, c: char, i: int)
    requires
        0 <= i <= s.len(),
    ensures
        i <= char_run_end(s, c, i) <= s.len(),
        forall|j: int| i <= j < char_run_end(s, c, i) ==> s[j] == c,
        char_run_end(s, c, i) < s.len() ==> s[char_run_end(s, c, i)] != c,
    decreases s.len() - i,
{
    if i < s.len() && s[i] == c {
        lemma_char_run_end(s, c, i + 1);
    }
}

proof fn lemma_first_ending_found(us: Seq<Seq<char>>, suffix: Seq<char>, i: int, k: int)
    requires
        0 <= i <= k < us.len(),
        ends_with(us[k], suffix),
    ensures
        first_ending(us, suffix, i) is Some,
    decreases k - i,
{
    if !ends_with(us[i], suffix) {
        lemma_first_ending_found(us, suffix, i + 1, k);
    }
}

/// What a latest-release document offers: an error exactly when it names no release;
/// a version that is its first `tag_name` without the `v`s it starts with; and an offer
/// whenever that version is newer than the build and a download URL ends with the
/// release asset.
pub proof fn law_release_offer(body: Seq<char>, current: Seq<char>, k: int)
    ensures
        release_offer(body, current) is Err <==> json_values(body, "tag_name"@).len() == 0,
        release_offer(body, current) matches Ok(Some((v, u))) ==> {
            let tag = json_values(body, "tag_name"@)[0];
            &&& v.len() <= tag.len()
            &&& tag.skip(tag.len() - v.len()) == v
            &&& forall|i: int| 0 <= i < tag.len() - v.len() ==> tag[i] == 'v'
            &&& v.len() > 0 ==> v[0] != 'v'
        },
        json_values(body, "tag_name"@).len() > 0 && 0 <= k < json_values(
            body,
            "browser_download_url"@,
        ).len() && ends_with(json_values(body, "browser_download_url"@)[k], RELEASE_ASSET@)
            && newer(trim_start_char(json_values(body, "tag_name"@)[0], 'v'), current)
            ==> release_offer(body, current) is Ok && release_offer(body, current)->Ok_0 is Some,
{
    let tags = json_values(body, "tag_name"@);
    let urls = json_values(body, "browser_download_url"@);
    if tags.len() > 0 {
        let tag = tags[0];
        lemma_char_run_end(tag, 'v', 0);
        let e = char_run_end(tag, 'v', 0);
        let v = trim_start_char(tag, 'v');
        assert(v.len() == tag.len() - e);
        assert(tag.skip(tag.len() - v.len()) =~= v);
        assert(v.len() > 0 ==> v[0] == tag[e]);
        if 0 <= k < urls.len() && ends_with(urls[k], RELEASE_ASSET@) {
            lemma_first_ending_found(urls, RELEASE_ASSET@, 0, k);
        }
    }
}

/// The latest release as (version, download URL), where the latest-release document
/// `body` offers one newer than `current`.
pub fn newer_release(body: &str, current: &str) -> (r: Result<Option<(String, String)>, String>)
    ensures
        match r {
            Ok(Some((v, u))) => release_offer(body@, current@) == Ok::<
                Option<(Seq<char>, Seq<char>)>,
                Seq<char>,
            >(Some((v@, u@))),
            Ok(None) => release_offer(body@, current@) == Ok::<
                Option<(Seq<char>, Seq<char>)>,
                Seq<char>,
            >(None),
            Err(e) => release_offer(body@, current@) == Err::<
                Option<(Seq<char>, Seq<char>)>,
                Seq<char>,
            >(e@),
        },
{
    let tags = json_strings(body, "tag_name");
    if tags.len() == 0 {
        return Err(String::from_str("no releases"));
    }
    let version = trim_start_matches(tags[0].as_str(), 'v');
    assert(views(tags@)[0] == tags@[0]@);
    let urls = json_strings(body, "browser_download_url");
    let ghost us = views(urls@);
    let mut i: usize = 0;
    while i < urls.len()
        invariant
            us == views(urls@),
            json_values(body@, "tag_name"@).len() > 0,
            version@ == trim_start_char(json_values(body@, "tag_name"@)[0], 'v'),
            us == json_values(body@, "browser_download_url"@),
            i <= urls.len(),
            first_ending(us, RELEASE_ASSET@, 0) == first_ending(us, RELEASE_ASSET@, i as int),
        decreases urls.len() - i,
    {
        assert(us[i as int] == urls@[i as int]@);
        if str_ends_with(urls[i].as_str(), RELEASE_ASSET) {
            if is_newer(version.as_str(), current) {
                return Ok(Some((version, urls[i].clone())));
            } else {
                return Ok(None);
            }
        }
        i += 1;
    }
    Ok(None)
}

/// The address of the latest-release document of repository `repo` ("owner/name"),
/// or the error that builds without a repository give.
pub fn latest_release_url(repo: Option<&str>) -> (r: Result<String, String>)
    ensures
        match repo {
            Some(name) => r matches Ok(u) && u@ == "https://api.github.com/repos/"@ + name@
                + "/releases/latest"@,
            None => r matches Err(e) && e@ == "updates are off in local builds"@,
        },
{
    match repo {
        Some(name) => {
            let mut v: Vec<char> = Vec::new();
            push_str(&mut v, "https://api.github.com/repos/");
            push_str(&mut v, name);
            push_str(&mut v, "/releases/latest");
            Ok(string_from(&v))
        },
        None => Err(String::from_str("updates are off in local builds")),
    }
}

/// The web page of repository `repo`, or the empty string where there is none.
pub fn repo_url(repo: Option<&str>) -> (r: String)
    ensures
        match repo {
            Some(name) => r@ == "https://github.com/"@ + name@,
            None => r@ == Seq::<char>::empty(),
        },
{
    let mut v: Vec<char> = Vec::new();
    match repo {
        Some(name) => {
            push_str(&mut v, "https://github.com/");
            push_str(&mut v, name);
        },
        None => {},
    }
    string_from(&v)
}

/// The states that the update panel shows.
#[derive(Clone, Copy, Debug, PartialEq, Eq, Structural)]
pub enum UpdateState {
    Disabled,
    Checking,
    Available,
    Latest,
    Failed,
    Downloading,
    Ready,
}

/// The name under which the interface knows each update state.
pub open spec fn state_label(s: UpdateState) -> Seq<char> {
    match s {
        UpdateState::Disabled => "disabled"@,
        UpdateState::Checking => "checking"@,
        UpdateState::Available => "available"@,
        UpdateState::Latest => "latest"@,
        UpdateState::Failed => "failed"@,
        UpdateState::Downloading => "downloading"@,
        UpdateState::Ready => "ready"@,
    }
}

impl UpdateState {
    /// The name under which the interface knows this state.
    pub fn label(&self) -> (s: &'static str)
        ensures
            s@ == state_label(*self),
    {
        match self {
            UpdateState::Disabled => "disabled",
            UpdateState::Checking => "checking",
            UpdateState::Available => "available",
            UpdateState::Latest => "latest",
            UpdateState::Failed => "failed",
            UpdateState::Downloading => "downloading",
            UpdateState::Ready => "ready",
        }
    }
}

/// Different update states go by different names, the names the window knows them by.
pub proof fn law_state_labels_distinct(a: UpdateState, b: UpdateState)
    ensures
        a != b ==> state_label(a) != state_label(b),
        state_label(UpdateState::Available) == "available"@,
        state_label(UpdateState::Latest) == "latest"@,
        state_label(UpdateState::Failed) == "failed"@,
        state_label(UpdateState::Ready) == "ready"@,
        state_label(UpdateState::Disabled) == "disabled"@,
        state_label(UpdateState::Checking) == "checking"@,
        state_label(UpdateState::Downloading) == "downloading"@,
{
    reveal_strlit("disabled");
    reveal_strlit("checking");
    reveal_strlit("available");
    reveal_strlit("latest");
    reveal_strlit("failed");
    reveal_strlit("downloading");
    reveal_strlit("ready");
    if a != b && state_label(a) == state_label(b) {
        let l = state_label(a);
        assert(l[0] == state_label(b)[0]);
        assert(l.len() == state_label(b).len());
        if l.len() > 1 {
            assert(l[1] == state_label(b)[1]);
        }
    }
}

/// What a check for updates shows: the offered version where there is one, that
/// this build is the latest where there is none, and failure on an error.
pub fn check_for_update(result: &Result<Option<(String, String)>, String>) -> (r: (
    UpdateState,
    Option<String>,
))
    ensures
        match result {
            Ok(Some((v, _))) => r.0 == UpdateState::Available && (r.1 matches Some(x) && x@ == v@),
            Ok(None) => r.0 == UpdateState::Latest && r.1 is None,
            Err(_) => r.0 == UpdateState::Failed && r.1 is None,
        },
{
    match result {
        Ok(Some((v, _))) => (UpdateState::Available, Some(v.clone())),
        Ok(None) => (UpdateState::Latest, None),
        Err(_) => (UpdateState::Failed, None),
    }
}

/// What the update panel shows once an update was tried: ready where a newer
/// release was found and installed, failed otherwise.
pub fn after_update(installed: bool) -> (r: UpdateState)
    ensures
        r == (if installed {
            UpdateState::Ready
        } else {
            UpdateState::Failed
        }),
{
    if installed {
        UpdateState::Ready
    } else {
        UpdateState::Failed
    }
}

} // verus!
