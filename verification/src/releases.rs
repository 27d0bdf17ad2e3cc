//! The releases that can be installed, out of what the GitHub releases endpoint returns.

use vstd::prelude::*;
use vstd::utf8::is_ascii_chars;

use crate::error::ApiError;
use crate::install::downloaded;
use crate::json::{parse_json, parsed_text, trees_of, Json, JsonTree};
use crate::text::{
    ascii_lower_char, ascii_lowercase, ends_with, is_ascii_char, law_ascii_ending_is_lowered,
    lowercase,
};

verus! {

/// Where the releases are listed.
pub const RELEASES_URL: &'static str =
    "https://api.github.com/repos/bobaoapae/haval-app-tool-multimidia/releases?per_page=30";

/// How the installer names itself to that service.
pub const USER_AGENT: &'static str = "haval-tool";

/// A release of the multimedia application that has an APK to install.
#[derive(Debug, Clone, PartialEq, Eq)]
pub struct ReleaseInfo {
    pub tag: String,
    pub name: String,
    pub apk_url: String,
    pub prerelease: bool,
    pub published_at: String,
}

/// The mathematical value of a `ReleaseInfo`.
pub struct Release {
    pub tag: Seq<char>,
    pub name: Seq<char>,
    pub apk_url: Seq<char>,
    pub prerelease: bool,
    pub published_at: Seq<char>,
}

impl View for ReleaseInfo {
    type V = Release;

    open spec fn view(&self) -> Release {
        Release {
            tag: self.tag@,
            name: self.name@,
            apk_url: self.apk_url@,
            prerelease: self.prerelease,
            published_at: self.published_at@,
        }
    }
}

/// The values of a list of releases.
pub open spec fn releases_view(list: Seq<ReleaseInfo>) -> Seq<Release> {
    list.map_values(|r: ReleaseInfo| r@)
}

/// Whether a URL names an APK: its lower case ends in `.apk`.
pub open spec fn is_apk_url(url: Seq<char>) -> bool {
    ".apk"@.is_suffix_of(lowercase(url))
}

/// The download URL of an asset, where it has one and it names an APK.
pub open spec fn apk_of_asset(asset: JsonTree) -> Option<Seq<char>> {
    match asset.member_text("browser_download_url"@) {
        Some(url) => if is_apk_url(url) {
            Some(url)
        } else {
            None
        },
        None => None,
    }
}

/// The first APK among a list of assets.
pub open spec fn first_apk(assets: Seq<JsonTree>) -> Option<Seq<char>>
    decreases assets.len(),
{
    if assets.len() == 0 {
        None
    } else if apk_of_asset(assets.first()) is Some {
        apk_of_asset(assets.first())
    } else {
        first_apk(assets.drop_first())
    }
}

/// The APK of a release: the first among its assets, where it lists assets at all.
pub open spec fn apk_of_release(release: JsonTree) -> Option<Seq<char>> {
    match release.member("assets"@) {
        Some(assets) => match assets.elements() {
            Some(list) => first_apk(list),
            None => None,
        },
        None => None,
    }
}

/// What is shown of one release. A release without a tag or without an APK is not shown. The
/// name falls back to the tag where it is missing or empty; a release is a prerelease only where
/// it says so; a missing date is empty.
pub open spec fn release_of(release: JsonTree) -> Option<Release> {
    match (release.member_text("tag_name"@), apk_of_release(release)) {
        (Some(tag), Some(apk_url)) => Some(
            Release {
                tag,
                name: match release.member_text("name"@) {
                    Some(name) => if name.len() > 0 {
                        name
                    } else {
                        tag
                    },
                    None => tag,
                },
                apk_url,
                prerelease: match release.member("prerelease"@) {
                    Some(flag) => flag.truth() == Some(true),
                    None => false,
                },
                published_at: match release.member_text("published_at"@) {
                    Some(date) => date,
                    None => Seq::empty(),
                },
            },
        ),
        _ => None,
    }
}

/// What is shown of a list of releases: those of them that are shown, in their order.
pub open spec fn releases_of(list: Seq<JsonTree>) -> Seq<Release>
    decreases list.len(),
{
    if list.len() == 0 {
        Seq::empty()
    } else {
        match release_of(list.last()) {
            Some(release) => releases_of(list.drop_last()).push(release),
            None => releases_of(list.drop_last()),
        }
    }
}

/// What is shown of a document: nothing, unless it is a list of releases.
pub open spec fn releases_in(doc: JsonTree) -> Seq<Release> {
    match doc.elements() {
        Some(list) => releases_of(list),
        None => Seq::empty(),
    }
}

/// What is shown of a body: nothing, unless it is a JSON document.
pub open spec fn releases_in_body(body: Seq<char>) -> Seq<Release> {
    match parsed_text(body) {
        Some(doc) => releases_in(doc),
        None => Seq::empty(),
    }
}

/// Whether a URL names an APK.
fn names_apk(url: &str) -> (r: bool)
    ensures
        r == is_apk_url(url@),
{
    let lower = url.to_lowercase();
    ends_with(lower.as_str(), ".apk")
}

/// The first APK among the assets of a release.
fn find_apk(assets: &Vec<Json>) -> (r: Option<String>)
    ensures
        match r {
            Some(url) => first_apk(trees_of(assets@)) == Some(url@),
            None => first_apk(trees_of(assets@)) is None,
        },
{
    let ghost trees = trees_of(assets@);
    assert(trees.skip(0) =~= trees);
    for i in 0..assets.len()
        invariant
            trees == trees_of(assets@),
            first_apk(trees) == first_apk(trees.skip(i as int)),
    {
        assert(trees.skip(i as int).first() == assets@[i as int]@);
        if let Some(url) = assets[i].member_text("browser_download_url") {
            if names_apk(url) {
                return Some(url.to_owned());
            }
        }
        assert(trees.skip(i as int).drop_first() =~= trees.skip(i + 1));
    }
    None
}

/// Reads one release, or nothing where it cannot be shown.
pub fn read_release(release: &Json) -> (r: Option<ReleaseInfo>)
    ensures
        match r {
            Some(info) => release_of(release@) == Some(info@),
            None => release_of(release@) is None,
        },
{
    let tag = match release.member_text("tag_name") {
        Some(tag) => tag,
        None => return None,
    };
    let name = match release.member_text("name") {
        Some(name) => if name.is_empty() {
            tag
        } else {
            name
        },
        None => tag,
    };
    let prerelease = match release.member("prerelease") {
        Some(flag) => match flag.truth() {
            Some(b) => b,
            None => false,
        },
        None => false,
    };
    let published_at = match release.member_text("published_at") {
        Some(date) => date.to_owned(),
        None => String::new(),
    };
    let apk_url = match release.member("assets") {
        Some(assets) => match assets.elements() {
            Some(list) => match find_apk(list) {
                Some(url) => url,
                None => return None,
            },
            None => return None,
        },
        None => return None,
    };
    Some(
        ReleaseInfo {
            tag: tag.to_owned(),
            name: name.to_owned(),
            apk_url,
            prerelease,
            published_at,
        },
    )
}

/// The releases that a document lists and that can be shown, in its order.
pub fn select_releases(doc: &Json) -> (r: Vec<ReleaseInfo>)
    ensures
        releases_view(r@) == releases_in(doc@),
{
    let mut out: Vec<ReleaseInfo> = Vec::new();
    match doc.elements() {
        Some(list) => {
            let ghost trees = trees_of(list@);
            for i in 0..list.len()
                invariant
                    trees == trees_of(list@),
                    releases_view(out@) == releases_of(trees.take(i as int)),
            {
                let ghost before = out@;
                assert(trees.take(i + 1).drop_last() =~= trees.take(i as int));
                assert(trees.take(i + 1).last() == list@[i as int]@);
                if let Some(info) = read_release(&list[i]) {
                    out.push(info);
                    assert(releases_view(out@) =~= releases_view(before).push(info@));
                }
            }
            assert(trees.take(list.len() as int) =~= trees);
        },
        None => {},
    }
    out
}

/// Given the body returned by GitHub's releases endpoint, picks the APK asset of each release
/// and returns a simplified list. A body that is not JSON, or not a list, gives an empty one.
pub fn parse_github_releases(body: &str) -> (r: Vec<ReleaseInfo>)
    ensures
        releases_view(r@) == releases_in_body(body@),
        forall|i: int| 0 <= i < r@.len() ==> is_apk_url((#[trigger] r@[i]).apk_url@),
{
    let r = match parse_json(body) {
        Some(doc) => select_releases(&doc),
        None => Vec::new(),
    };
    proof {
        assert forall|i: int| 0 <= i < r@.len() implies is_apk_url(
            (#[trigger] r@[i]).apk_url@,
        ) by {
            assert(releases_view(r@)[i] == r@[i]@);
            let list = parsed_text(body@)->0.elements()->0;
            law_shown_releases_are_installable(list, i);
        }
    }
    r
}

/// The releases to choose from, out of what downloading the list gave.
pub fn list_haval_releases(download: Option<String>) -> (r: Result<Vec<ReleaseInfo>, ApiError>)
    ensures
        match download {
            Some(body) => r matches Ok(list) && releases_view(list@) == releases_in_body(body@),
            None => r matches Err(e) && e == ApiError::DownloadFailed,
        },
{
    match downloaded(download) {
        Ok(body) => Ok(parse_github_releases(body.as_str())),
        Err(e) => Err(e),
    }
}

/// The APK chosen is the first asset that names one, and there is none only where no asset does.
pub proof fn law_first_apk_is_chosen(assets: Seq<JsonTree>)
    ensures
        first_apk(assets) is None <==> forall|i: int|
            0 <= i < assets.len() ==> apk_of_asset(#[trigger] assets[i]) is None,
        first_apk(assets) is Some ==> exists|i: int|
            {
                &&& 0 <= i < assets.len()
                &&& apk_of_asset(#[trigger] assets[i]) == first_apk(assets)
                &&& forall|j: int| 0 <= j < i ==> apk_of_asset(#[trigger] assets[j]) is None
            },
    decreases assets.len(),
{
    if assets.len() > 0 {
        let rest = assets.drop_first();
        law_first_apk_is_chosen(rest);
        if apk_of_asset(assets.first()) is None {
            assert(assets[0] == assets.first());
            assert forall|i: int|
                first_apk(assets) is None && 0 <= i < assets.len() implies apk_of_asset(
                #[trigger] assets[i],
            ) is None by {
                if i > 0 {
                    assert(assets[i] == rest[i - 1]);
                }
            }
            if first_apk(rest) is Some {
                let i = choose|i: int|
                    {
                        &&& 0 <= i < rest.len()
                        &&& apk_of_asset(#[trigger] rest[i]) == first_apk(rest)
                        &&& forall|j: int|
                            0 <= j < i ==> apk_of_asset(#[trigger] rest[j]) is None
                    };
                assert(assets[i + 1] == rest[i]);
                assert forall|j: int| 0 <= j < i + 1 implies apk_of_asset(
                    #[trigger] assets[j],
                ) is None by {
                    if j > 0 {
                        assert(assets[j] == rest[j - 1]);
                    }
                }
            }
        } else {
            assert(apk_of_asset(assets[0]) == first_apk(assets));
        }
    }
}

/// The extension is read whatever its case: a URL whose last four characters are `.apk` in any
/// case names an APK. No other URL that ends in four ASCII characters does, and no shorter ASCII
/// URL.
pub proof fn law_extension_ignores_case(url: Seq<char>)
    ensures
        url.len() >= 4 && ascii_lowercase(url.skip(url.len() - 4)) == ".apk"@ ==> is_apk_url(url),
        url.len() >= 4 && is_ascii_chars(url.skip(url.len() - 4)) && is_apk_url(url)
            ==> ascii_lowercase(url.skip(url.len() - 4)) == ".apk"@,
        url.len() < 4 && is_ascii_chars(url) ==> !is_apk_url(url),
{
    reveal_strlit(".apk");
    if url.len() >= 4 {
        let end = url.skip(url.len() - 4);
        let lower = lowercase(url);
        if ascii_lowercase(end) == ".apk"@ {
            assert forall|i: int| url.len() - 4 <= i < url.len() implies is_ascii_char(
                #[trigger] url[i],
            ) by {
                assert(ascii_lowercase(end)[i - (url.len() - 4)] == ascii_lower_char(url[i]));
            }
            law_ascii_ending_is_lowered(url, 4);
        }
        if is_ascii_chars(end) {
            assert forall|i: int| url.len() - 4 <= i < url.len() implies is_ascii_char(
                #[trigger] url[i],
            ) by {
                assert(end[i - (url.len() - 4)] == url[i]);
            }
            law_ascii_ending_is_lowered(url, 4);
            assert(ascii_lowercase(end) == lower.subrange(lower.len() - 4, lower.len() as int));
        }
    }
}

/// Each release is judged on its own: what is shown of two lists one after the other is what is
/// shown of the first, then what is shown of the second.
pub proof fn law_releases_are_independent(first: Seq<JsonTree>, second: Seq<JsonTree>)
    ensures
        releases_of(first + second) == releases_of(first) + releases_of(second),
    decreases second.len(),
{
    let all = first + second;
    if second.len() == 0 {
        assert(all =~= first);
        assert(releases_of(all) =~= releases_of(first) + releases_of(second));
    } else {
        assert(all.drop_last() =~= first + second.drop_last());
        assert(all.last() == second.last());
        law_releases_are_independent(first, second.drop_last());
        assert(releases_of(all) =~= releases_of(first) + releases_of(second));
    }
}

/// Whatever is shown stands for one of the releases listed, can be installed, and has a name
/// unless its tag is empty too.
pub proof fn law_shown_releases_are_installable(list: Seq<JsonTree>, i: int)
    requires
        0 <= i < releases_of(list).len(),
    ensures
        is_apk_url(releases_of(list)[i].apk_url),
        releases_of(list)[i].name.len() > 0 || releases_of(list)[i].tag.len() == 0,
        exists|k: int|
            0 <= k < list.len() && release_of(#[trigger] list[k]) == Some(releases_of(list)[i]),
    decreases list.len(),
{
    let rest = list.drop_last();
    if i < releases_of(rest).len() {
        law_shown_releases_are_installable(rest, i);
        let k = choose|k: int|
            0 <= k < rest.len() && release_of(#[trigger] rest[k]) == Some(releases_of(rest)[i]);
        assert(list[k] == rest[k]);
    } else {
        let last = list[list.len() - 1];
        assert(release_of(last) == Some(releases_of(list)[i]));
        let assets = last.member("assets"@)->0.elements()->0;
        law_first_apk_is_chosen(assets);
    }
}

/// No release that has a tag and an APK is left out, and no other is shown.
pub proof fn law_releases_left_out(list: Seq<JsonTree>)
    ensures
        releases_of(list).len() <= list.len(),
        forall|k: int|
            0 <= k < list.len() ==> match release_of(#[trigger] list[k]) {
                Some(release) => {
                    &&& releases_of(list).contains(release)
                    &&& list[k].member_text("tag_name"@) == Some(release.tag)
                    &&& apk_of_release(list[k]) == Some(release.apk_url)
                },
                None => {
                    ||| list[k].member_text("tag_name"@) is None
                    ||| apk_of_release(list[k]) is None
                },
            },
    decreases list.len(),
{
    if list.len() > 0 {
        let rest = list.drop_last();
        law_releases_left_out(rest);
        assert forall|k: int|
            0 <= k < list.len() && release_of(#[trigger] list[k]) is Some implies releases_of(
            list,
        ).contains(release_of(list[k])->0) by {
            let release = release_of(list[k])->0;
            if k < rest.len() {
                assert(list[k] == rest[k]);
                let n = choose|n: int|
                    0 <= n < releases_of(rest).len() && releases_of(rest)[n] == release;
                assert(releases_of(list)[n] == release);
            } else {
                assert(releases_of(list)[releases_of(list).len() - 1] == release);
            }
        }
    }
}

} // verus!
