//! What the operations promise, stated on what they are given and what they return.

use vstd::prelude::*;
use vstd::utf8::{decode_utf8, is_ascii_chars, valid_utf8};

use crate::connection::{get_gateway, is_haval_hotspot, telnet_address, ConnectionState};
use crate::error::ApiError;
use crate::install::{
    downloaded, plan_installation, steps_view, Installation, Step, StepView, SCRIPT_URL,
};
use crate::json::{parse_json, parsed_text, Json, JsonTree};
use crate::releases::{
    apk_of_asset, first_apk, law_first_apk_is_chosen, list_haval_releases, parse_github_releases,
    read_release, release_of, releases_of, releases_view, select_releases, ReleaseInfo,
    RELEASES_URL, USER_AGENT,
};
use crate::shell::{
    build_run_command, build_upload_command, command_event, law_pinned_url_survives_the_shell,
    lemma_replaced_concat, replaced, shell_word, wire_line,
};
use crate::text::{
    ascii_tail, chars_of, ends_with, is_white_space, joined, lossy_text, lowercase,
    repaired_text, same_text, starts_with, trim, trimmed, trimmed_end, trimmed_start,
    unicode_lowercase,
};
use crate::watch::{
    is_blank, judge_response, lemma_trim_blanks, monitor_messages, read_response, watch_step,
    WatchEvent, WatchStep, OUTPUT_EVENT, WATCH_SECONDS,
};

verus! {

/// An asset links to an APK at a URL: the URL is the text of its `browser_download_url`, and its
/// lower case ends in `.apk`.
pub open spec fn links_apk(asset: JsonTree, url: Seq<char>) -> bool {
    &&& asset matches JsonTree::Object(members)
    &&& members.contains_key("browser_download_url"@)
    &&& members["browser_download_url"@] == JsonTree::Text(url)
    &&& ".apk"@.is_suffix_of(lowercase(url))
}

/// A release can be installed: it has a tag, and among its assets one links to an APK.
pub open spec fn installable(release: JsonTree) -> bool {
    &&& release matches JsonTree::Object(members)
    &&& members.contains_key("tag_name"@)
    &&& members["tag_name"@] is Text
    &&& members.contains_key("assets"@)
    &&& members["assets"@] matches JsonTree::Array(assets)
    &&& exists|i: int, url: Seq<char>|
        0 <= i < assets.len() && #[trigger] links_apk(assets[i], url)
}

/// An entry describes a release: the tag is its tag; the name is its name where that is a text
/// and not empty, and the tag otherwise; the APK is the first that its assets link to; it is a
/// prerelease where it says true; the date is its date where that is a text, and empty otherwise.
pub open spec fn describes(release: JsonTree, entry: ReleaseInfo) -> bool {
    &&& release matches JsonTree::Object(members)
    &&& members.contains_key("tag_name"@)
    &&& members["tag_name"@] == JsonTree::Text(entry.tag@)
    &&& members.contains_key("name"@) && members["name"@] is Text && members["name"@]->Text_0.len()
        > 0 ==> members["name"@] == JsonTree::Text(entry.name@)
    &&& !(members.contains_key("name"@) && members["name"@] is Text
        && members["name"@]->Text_0.len() > 0) ==> entry.name@ == entry.tag@
    &&& entry.prerelease <==> members.contains_key("prerelease"@) && members["prerelease"@]
        == JsonTree::Bool(true)
    &&& members.contains_key("published_at"@) && members["published_at"@] is Text
        ==> members["published_at"@] == JsonTree::Text(entry.published_at@)
    &&& !(members.contains_key("published_at"@) && members["published_at"@] is Text)
        ==> entry.published_at@.len() == 0
    &&& members.contains_key("assets"@)
    &&& members["assets"@] matches JsonTree::Array(assets)
    &&& exists|i: int|
        {
            &&& 0 <= i < assets.len()
            &&& #[trigger] links_apk(assets[i], entry.apk_url@)
            &&& forall|j: int, url: Seq<char>|
                0 <= j < i ==> !#[trigger] links_apk(assets[j], url)
        }
}

/// Some entries list what can be installed: one entry for each release that can, in the order of
/// the releases, and no other.
pub open spec fn lists(releases: Seq<JsonTree>, entries: Seq<ReleaseInfo>) -> bool {
    let wanted = releases.filter(|r: JsonTree| installable(r));
    &&& entries.len() == wanted.len()
    &&& forall|k: int| 0 <= k < entries.len() ==> describes(wanted[k], #[trigger] entries[k])
}

/// Reading an asset gives the APK that it links to.
proof fn lemma_links_apk(asset: JsonTree, url: Seq<char>)
    ensures
        links_apk(asset, url) <==> apk_of_asset(asset) == Some(url),
{
}

/// Reading a release gives an entry exactly where it can be installed, and the entry describes
/// it.
proof fn lemma_release_of(release: JsonTree)
    ensures
        release_of(release) is Some <==> installable(release),
        forall|entry: ReleaseInfo|
            release_of(release) == Some(#[trigger] entry@) ==> describes(release, entry),
{
    if let JsonTree::Object(members) = release {
        if members.contains_key("assets"@) {
            if let JsonTree::Array(assets) = members["assets"@] {
                law_first_apk_is_chosen(assets);
                assert forall|i: int, url: Seq<char>|
                    #![trigger links_apk(assets[i], url)]
                    links_apk(assets[i], url) <==> apk_of_asset(assets[i]) == Some(url) by {
                    lemma_links_apk(assets[i], url);
                }
                if first_apk(assets) is Some {
                    let i = choose|i: int|
                        {
                            &&& 0 <= i < assets.len()
                            &&& apk_of_asset(#[trigger] assets[i]) == first_apk(assets)
                            &&& forall|j: int|
                                0 <= j < i ==> apk_of_asset(#[trigger] assets[j]) is None
                        };
                    assert(links_apk(assets[i], first_apk(assets)->0));
                    assert forall|entry: ReleaseInfo|
                        release_of(release) == Some(#[trigger] entry@) implies describes(
                        release,
                        entry,
                    ) by {
                        assert(entry.apk_url@ == first_apk(assets)->0);
                        assert(links_apk(assets[i], entry.apk_url@));
                    }
                }
            }
        }
    }
}

/// What is shown of a list has one entry for each release that can be installed.
proof fn lemma_releases_of(list: Seq<JsonTree>)
    ensures
        releases_of(list).len() == list.filter(|r: JsonTree| installable(r)).len(),
        forall|k: int|
            0 <= k < releases_of(list).len() ==> release_of(
                list.filter(|r: JsonTree| installable(r))[k],
            ) == Some(#[trigger] releases_of(list)[k]),
    decreases list.len(),
{
    reveal(Seq::filter);
    if list.len() > 0 {
        lemma_releases_of(list.drop_last());
        lemma_release_of(list.last());
    }
}

/// Entries whose values are what is shown of a list, list what can be installed.
proof fn lemma_lists(list: Seq<JsonTree>, entries: Seq<ReleaseInfo>)
    requires
        releases_view(entries) == releases_of(list),
    ensures
        lists(list, entries),
{
    lemma_releases_of(list);
    let wanted = list.filter(|r: JsonTree| installable(r));
    assert(entries.len() == releases_view(entries).len());
    assert forall|k: int| 0 <= k < entries.len() implies describes(
        wanted[k],
        #[trigger] entries[k],
    ) by {
        assert(releases_view(entries)[k] == entries[k]@);
        assert(release_of(wanted[k]) == Some(releases_of(list)[k]));
        lemma_release_of(wanted[k]);
    }
}

/// Reading a release gives an entry exactly where the release can be installed, and the entry
/// describes it field by field.
pub proof fn law_read_release(release: &Json, r: Option<ReleaseInfo>)
    requires
        call_ensures(read_release, (release,), r),
    ensures
        r is Some <==> installable(release@),
        r matches Some(entry) ==> describes(release@, entry),
{
    lemma_release_of(release@);
}

/// A document that is an array is listed whole: each of its releases that can be installed has
/// its entry, in order, however many there are. Any other document lists nothing.
pub proof fn law_select_releases(doc: &Json, r: Vec<ReleaseInfo>)
    requires
        call_ensures(select_releases, (doc,), r),
    ensures
        doc@ matches JsonTree::Array(list) ==> lists(list, r@),
        !(doc@ is Array) ==> r@.len() == 0,
{
    assert(r@.len() == releases_view(r@).len());
    if let JsonTree::Array(list) = doc@ {
        lemma_lists(list, r@);
    }
}

/// A body that is a JSON array is listed whole: each of its releases that can be installed has
/// its entry, in order, however many there are. Any other body lists nothing.
pub proof fn law_parse_github_releases(body: &str, r: Vec<ReleaseInfo>)
    requires
        call_ensures(parse_github_releases, (body,), r),
    ensures
        parsed_text(body@) matches Some(JsonTree::Array(list)) ==> lists(list, r@),
        !(parsed_text(body@) matches Some(JsonTree::Array(_))) ==> r@.len() == 0,
{
    assert(r@.len() == releases_view(r@).len());
    if let Some(JsonTree::Array(list)) = parsed_text(body@) {
        lemma_lists(list, r@);
    }
}

/// A list that was downloaded is read as its body is; one that was not is an error.
pub proof fn law_list_haval_releases(
    download: Option<String>,
    r: Result<Vec<ReleaseInfo>, ApiError>,
)
    requires
        call_ensures(list_haval_releases, (download,), r),
    ensures
        download is None ==> r == Err::<Vec<ReleaseInfo>, ApiError>(ApiError::DownloadFailed),
        download matches Some(body) ==> {
            &&& r matches Ok(entries)
            &&& parsed_text(body@) matches Some(JsonTree::Array(list)) ==> lists(list, entries@)
            &&& !(parsed_text(body@) matches Some(JsonTree::Array(_))) ==> entries@.len() == 0
        },
{
    if let Some(body) = download {
        let entries = r->Ok_0;
        assert(entries@.len() == releases_view(entries@).len());
        if let Some(JsonTree::Array(list)) = parsed_text(body@) {
            lemma_lists(list, entries@);
        }
    }
}

/// Reading a text as JSON gives the value that it stands for, or nothing where it is refused.
pub proof fn law_parse_json(text: &str, r: Option<Json>)
    requires
        call_ensures(parse_json, (text,), r),
    ensures
        r is Some <==> parsed_text(text@) is Some,
        r matches Some(doc) ==> parsed_text(text@) == Some(doc@),
{
}

/// Looking up a key finds the member that the object has under it, and nothing in any other
/// value.
pub proof fn law_json_member(v: &Json, key: &str, r: Option<&Json>)
    requires
        call_ensures(Json::member, (v, key), r),
    ensures
        v@ matches JsonTree::Object(members) ==> {
            &&& r is Some <==> members.contains_key(key@)
            &&& r matches Some(found) ==> found@ == members[key@]
        },
        !(v@ is Object) ==> r is None,
{
}

/// Looking up a text finds the member that the object has under the key, where it is a string.
pub proof fn law_json_member_text(v: &Json, key: &str, r: Option<&str>)
    requires
        call_ensures(Json::member_text, (v, key), r),
    ensures
        r is Some <==> v@ is Object && v@->Object_0.contains_key(key@) && v@->Object_0[key@] is Text,
        r matches Some(found) ==> v@->Object_0[key@] == JsonTree::Text(found@),
{
}

/// A string is read as its text, a boolean as its truth value, an array as its elements; nothing
/// else is.
pub proof fn law_json_readings(
    v: &Json,
    text: Option<&str>,
    truth: Option<bool>,
    elements: Option<&Vec<Json>>,
)
    requires
        call_ensures(Json::text, (v,), text),
        call_ensures(Json::truth, (v,), truth),
        call_ensures(Json::elements, (v,), elements),
    ensures
        text is Some <==> v@ is Text,
        text matches Some(found) ==> v@ == JsonTree::Text(found@),
        truth is Some <==> v@ is Bool,
        truth matches Some(found) ==> v@ == JsonTree::Bool(found),
        elements is Some <==> v@ is Array,
        elements matches Some(found) ==> {
            &&& v@ matches JsonTree::Array(list)
            &&& list.len() == found@.len()
            &&& forall|i: int| 0 <= i < list.len() ==> #[trigger] list[i] == found@[i]@
        },
{
}

/// Parts one after the other, with a separator between them.
pub open spec fn joined_by(parts: Seq<Seq<char>>, separator: Seq<char>) -> Seq<char>
    decreases parts.len(),
{
    if parts.len() == 0 {
        Seq::empty()
    } else if parts.len() == 1 {
        parts[0]
    } else {
        parts[0] + separator + joined_by(parts.drop_first(), separator)
    }
}

/// Some parts are those of a text between the occurrences of a character.
pub open spec fn parts_of(parts: Seq<Seq<char>>, text: Seq<char>, c: char) -> bool {
    &&& parts.len() > 0
    &&& forall|i: int| 0 <= i < parts.len() ==> !(#[trigger] parts[i]).contains(c)
    &&& joined_by(parts, seq![c]) == text
}

/// Every text has its parts between the occurrences of a character.
pub proof fn law_every_text_has_parts(text: Seq<char>, c: char)
    ensures
        exists|parts: Seq<Seq<char>>| parts_of(parts, text, c),
    decreases text.len(),
{
    if text.len() == 0 {
        let parts = seq![text];
        assert(parts_of(parts, text, c));
    } else {
        let rest = text.drop_first();
        law_every_text_has_parts(rest, c);
        let old_parts = choose|parts: Seq<Seq<char>>| parts_of(parts, rest, c);
        if text.first() == c {
            let parts = seq![Seq::<char>::empty()] + old_parts;
            assert(parts.drop_first() =~= old_parts);
            assert(parts[0] + seq![c] + rest =~= text);
            assert forall|i: int| 0 <= i < parts.len() implies !(#[trigger] parts[i]).contains(
                c,
            ) by {
                if i > 0 {
                    assert(parts[i] == old_parts[i - 1]);
                }
            }
            assert(parts_of(parts, text, c));
        } else {
            let head = seq![text.first()] + old_parts[0];
            let parts = seq![head] + old_parts.drop_first();
            assert(parts.drop_first() =~= old_parts.drop_first());
            assert forall|i: int| 0 <= i < parts.len() implies !(#[trigger] parts[i]).contains(
                c,
            ) by {
                if i > 0 {
                    assert(parts[i] == old_parts[i]);
                } else {
                    assert(!old_parts[0].contains(c));
                    assert forall|j: int| 0 <= j < head.len() implies head[j] != c by {
                        if j > 0 {
                            assert(head[j] == old_parts[0][j - 1]);
                        }
                    }
                }
            }
            assert(joined_by(parts, seq![c]) =~= seq![text.first()] + rest);
            assert(seq![text.first()] + rest =~= text);
            assert(parts_of(parts, text, c));
        }
    }
}

/// Replacing leaves a text without the character as it is.
proof fn lemma_nothing_to_replace(s: Seq<char>, from: char, to: Seq<char>)
    requires
        !s.contains(from),
    ensures
        replaced(s, from, to) == s,
    decreases s.len(),
{
    if s.len() > 0 {
        let rest = s.drop_first();
        assert(s[0] != from);
        assert forall|i: int| 0 <= i < rest.len() implies rest[i] != from by {
            assert(rest[i] == s[i + 1]);
        }
        lemma_nothing_to_replace(rest, from, to);
        assert(seq![s.first()] + rest =~= s);
    } else {
        assert(replaced(s, from, to) =~= s);
    }
}

/// Replacing a character changes what stands between the parts of a text, and no part.
proof fn lemma_replaced_parts(
    parts: Seq<Seq<char>>,
    text: Seq<char>,
    from: char,
    to: Seq<char>,
)
    requires
        parts_of(parts, text, from),
    ensures
        replaced(text, from, to) == joined_by(parts, to),
    decreases parts.len(),
{
    assert(!parts[0].contains(from));
    lemma_nothing_to_replace(parts[0], from, to);
    if parts.len() > 1 {
        let rest = parts.drop_first();
        let tail = joined_by(rest, seq![from]);
        assert forall|i: int| 0 <= i < rest.len() implies !(#[trigger] rest[i]).contains(from) by {
            assert(rest[i] == parts[i + 1]);
        }
        lemma_replaced_parts(rest, tail, from, to);
        lemma_replaced_concat(parts[0] + seq![from], tail, from, to);
        lemma_replaced_concat(parts[0], seq![from], from, to);
        reveal_with_fuel(replaced, 2);
        assert(seq![from].drop_first() =~= Seq::empty());
        assert(replaced(seq![from], from, to) =~= to);
    }
}

/// The script is sent line by line: the lines stand unchanged between the quotes, whatever
/// characters they hold, joined by a backslash and an `n`.
pub proof fn law_upload_keeps_every_line(script: &str, lines: Seq<Seq<char>>, r: String)
    requires
        call_ensures(build_upload_command, (script,), r),
        parts_of(lines, script@, '\n'),
    ensures
        r@ == "echo -e '"@ + joined_by(lines, "\\n"@) + "' > /data/local/tmp/install.sh"@,
{
    lemma_replaced_parts(lines, script@, '\n', "\\n"@);
}

/// A script of one line is sent as it is.
pub proof fn law_upload_of_one_line(script: &str, r: String)
    requires
        call_ensures(build_upload_command, (script,), r),
        !script@.contains('\n'),
    ensures
        r@ == "echo -e '"@ + script@ + "' > /data/local/tmp/install.sh"@,
{
    lemma_nothing_to_replace(script@, '\n', "\\n"@);
}

/// A pinned URL is handed over part by part: what stands between its single quotes is unchanged,
/// and each single quote is written as a closing quote, an escaped quote and an opening one.
pub proof fn law_run_command_keeps_the_url(url: &str, parts: Seq<Seq<char>>, r: String)
    requires
        call_ensures(build_run_command, (Some(url),), r),
        url@.len() > 0,
        parts_of(parts, url@, '\''),
    ensures
        r@ == "cd /data/local/tmp && HAVAL_APK_URL='"@ + joined_by(parts, "'\\''"@)
            + "' ./install.sh"@,
{
    lemma_replaced_parts(parts, url@, '\'', "'\\''"@);
}

/// Where no URL is pinned, or an empty one, the script is run as it is.
pub proof fn law_run_command_without_url(pinned: Option<&str>, r: String)
    requires
        call_ensures(build_run_command, (pinned,), r),
        pinned matches Some(url) ==> url@.len() == 0,
    ensures
        r@ == "cd /data/local/tmp && ./install.sh"@,
{
}

/// The shell reads back, from the command that is built, exactly the URL that was pinned.
pub proof fn law_shell_reads_the_url_back(url: &str, r: String)
    requires
        call_ensures(build_run_command, (Some(url),), r),
        url@.len() > 0,
    ensures
        "cd /data/local/tmp && "@.is_prefix_of(r@),
        shell_word(r@.skip("cd /data/local/tmp && "@.len() as int), false) == Some(
            ("HAVAL_APK_URL="@ + url@, " ./install.sh"@),
        ),
{
    law_pinned_url_survives_the_shell(url@);
}

/// A command goes over the wire as it is, with one line break behind it, and is logged as it is,
/// behind a dollar sign and a space.
pub proof fn law_command_texts(command: &str, wire: String, event: String)
    requires
        call_ensures(wire_line, (command,), wire),
        call_ensures(command_event, (command,), event),
    ensures
        wire@.len() == command@.len() + 1,
        wire@.drop_last() == command@,
        wire@.last() == '\n',
        event@.len() == command@.len() + 2,
        event@[0] == '$' && event@[1] == ' ',
        event@.skip(2) == command@,
{
    reveal_strlit("$ ");
    assert(wire@.drop_last() =~= command@);
    assert(event@.skip(2) =~= command@);
}

/// Whatever the script and the URL, a plan connects first, once, exactly where there is no
/// connection; a connection that is there changes nothing else.
pub proof fn law_plan_connects_first(
    script: &str,
    apk_url: Option<&str>,
    fresh: Vec<Step>,
    held: Vec<Step>,
)
    requires
        call_ensures(plan_installation, (script, apk_url, false), fresh),
        call_ensures(plan_installation, (script, apk_url, true), held),
    ensures
        fresh@.len() == held@.len() + 1,
        fresh@[0] is Connect,
        forall|i: int| 1 <= i < fresh@.len() ==> !(#[trigger] fresh@[i] is Connect),
        forall|i: int| 0 <= i < held@.len() ==> !(#[trigger] held@[i] is Connect),
        forall|i: int| 0 <= i < held@.len() ==> fresh@[i + 1]@ == (#[trigger] held@[i])@,
{
    let a = steps_view(fresh@);
    let b = steps_view(held@);
    assert(a.len() == fresh@.len() && b.len() == held@.len());
    assert forall|i: int| 0 <= i < fresh@.len() implies a[i] == (#[trigger] fresh@[i])@ by {}
    assert forall|i: int| 0 <= i < held@.len() implies b[i] == (#[trigger] held@[i])@ by {}
    assert(a[0] is Connect);
    assert(a.skip(1) =~= b);
    assert forall|i: int| 0 <= i < b.len() implies !(#[trigger] b[i] is Connect) && a[i + 1]
        == b[i] by {
        assert(a.skip(1)[i] == a[i + 1]);
    }
    assert forall|i: int| 1 <= i < fresh@.len() implies !(#[trigger] fresh@[i] is Connect) by {
        assert(a[i] == b[i - 1]);
    }
}

/// Each of the three commands is announced, logged, sent and waited for, in that order: the
/// script is written first, made executable next and run last.
pub proof fn law_plan_step_by_step(
    script: &str,
    apk_url: Option<&str>,
    upload: String,
    run: String,
    r: Vec<Step>,
)
    requires
        call_ensures(plan_installation, (script, apk_url, true), r),
        call_ensures(build_upload_command, (script,), upload),
        call_ensures(build_run_command, (apk_url,), run),
    ensures
        r@.len() == 12,
        r@[0] matches Step::Notify(t) && t@ == "📦 Enviando script para o dispositivo..."@,
        r@[1] matches Step::Notify(t) && t@ == "$ "@ + upload@,
        r@[2] matches Step::Send(c) && c@ == upload@,
        r@[3] == Step::Wait(2),
        r@[4] matches Step::Notify(t) && t@ == "🔧 Definindo permissões de execução..."@,
        r@[5] matches Step::Notify(t) && t@ == "$ "@ + "chmod +x /data/local/tmp/install.sh"@,
        r@[6] matches Step::Send(c) && c@ == "chmod +x /data/local/tmp/install.sh"@,
        r@[7] == Step::Wait(1),
        r@[8] matches Step::Notify(t) && t@ == "🚀 Executando script de instalação..."@,
        r@[9] matches Step::Notify(t) && t@ == "$ "@ + run@,
        r@[10] matches Step::Send(c) && c@ == run@,
        r@[11] == Step::Wait(1),
{
    let v = steps_view(r@);
    assert(v.len() == r@.len());
    assert forall|i: int| 0 <= i < r@.len() implies v[i] == (#[trigger] r@[i])@ by {}
    assert(v[0] == r@[0]@ && v[1] == r@[1]@ && v[2] == r@[2]@ && v[3] == r@[3]@);
    assert(v[4] == r@[4]@ && v[5] == r@[5]@ && v[6] == r@[6]@ && v[7] == r@[7]@);
    assert(v[8] == r@[8]@ && v[9] == r@[9]@ && v[10] == r@[10]@ && v[11] == r@[11]@);
}

/// A step stands for itself, with its text, its command or its seconds.
pub proof fn law_step_value(step: Step)
    ensures
        step is Connect <==> step@ is Connect,
        step matches Step::Notify(text) ==> step@ == StepView::Notify(text@),
        step matches Step::Send(command) ==> step@ == StepView::Send(command@),
        step matches Step::Wait(seconds) ==> step@ == StepView::Wait(seconds as int),
{
}

/// An installation starts with its whole plan, and its current step is the first that is left.
pub proof fn law_installation_follows_its_plan(
    script: &str,
    apk_url: Option<&str>,
    connected: bool,
    plan: Vec<Step>,
    started: Installation,
    later: &Installation,
    current: Option<&Step>,
)
    requires
        call_ensures(plan_installation, (script, apk_url, connected), plan),
        call_ensures(Installation::new, (script, apk_url, connected), started),
        call_ensures(Installation::current, (later,), current),
    ensures
        started@.len() == plan@.len(),
        forall|i: int| 0 <= i < plan@.len() ==> started@[i] == (#[trigger] plan@[i])@,
        current is None <==> later@.len() == 0,
        current matches Some(step) ==> step@ == later@[0],
{
    assert(steps_view(plan@) == started@);
}

/// After a step that went well, and after a text or a wait whatever came of it, the installation
/// goes on with the next step. A connection or a command that failed ends it, with that failure.
/// At its end nothing changes.
pub proof fn law_report(
    installation: &mut Installation,
    outcome: Result<(), ApiError>,
    r: Result<(), ApiError>,
)
    requires
        call_ensures(Installation::report, (installation, outcome), r),
    ensures
        old(installation)@.len() == 0 ==> r is Ok && final(installation)@ == old(installation)@,
        old(installation)@.len() > 0 && (outcome is Ok || old(installation)@[0] is Notify || old(
            installation,
        )@[0] is Wait) ==> r is Ok && final(installation)@ == old(installation)@.skip(1),
        old(installation)@.len() > 0 && outcome is Err && (old(installation)@[0] is Connect || old(
            installation,
        )@[0] is Send) ==> r == outcome && final(installation)@.len() == 0,
{
    assert(old(installation)@.len() > 0 ==> old(installation)@.skip(1) =~= old(
        installation,
    )@.drop_first());
}

/// A body that was downloaded is passed on; one that was not is an error.
pub proof fn law_downloaded(body: Option<String>, r: Result<String, ApiError>)
    requires
        call_ensures(downloaded, (body,), r),
    ensures
        body matches Some(text) ==> r == Ok::<String, ApiError>(text),
        body is None ==> r == Err::<String, ApiError>(ApiError::DownloadFailed),
{
}

/// A text is another with white space taken off its ends, and none is left there.
pub open spec fn is_core_of(core: Seq<char>, text: Seq<char>) -> bool {
    &&& exists|before: Seq<char>, after: Seq<char>|
        {
            &&& #[trigger] is_blank(before)
            &&& #[trigger] is_blank(after)
            &&& text == before + core + after
        }
    &&& core.len() > 0 ==> !is_white_space(core[0]) && !is_white_space(core[core.len() - 1])
}

/// Trimming the start takes off white space alone.
proof fn lemma_trimmed_start(s: Seq<char>) -> (before: Seq<char>)
    ensures
        is_blank(before),
        s == before + trimmed_start(s),
        trimmed_start(s).len() > 0 ==> !is_white_space(trimmed_start(s)[0]),
    decreases s.len(),
{
    if s.len() > 0 && is_white_space(s.first()) {
        let rest = lemma_trimmed_start(s.drop_first());
        let before = seq![s.first()] + rest;
        assert forall|i: int| 0 <= i < before.len() implies is_white_space(
            #[trigger] before[i],
        ) by {
            if i > 0 {
                assert(before[i] == rest[i - 1]);
            }
        }
        assert(s =~= seq![s.first()] + s.drop_first());
        assert(s =~= before + trimmed_start(s));
        before
    } else {
        assert(s =~= Seq::<char>::empty() + s);
        Seq::empty()
    }
}

/// Trimming the end takes off white space alone.
proof fn lemma_trimmed_end(s: Seq<char>) -> (after: Seq<char>)
    ensures
        is_blank(after),
        s == trimmed_end(s) + after,
        trimmed_end(s).len() > 0 ==> !is_white_space(trimmed_end(s).last()),
    decreases s.len(),
{
    if s.len() > 0 && is_white_space(s.last()) {
        let rest = lemma_trimmed_end(s.drop_last());
        let after = rest.push(s.last());
        assert forall|i: int| 0 <= i < after.len() implies is_white_space(#[trigger] after[i]) by {
            if i < rest.len() {
                assert(after[i] == rest[i]);
            }
        }
        assert(s =~= s.drop_last().push(s.last()));
        assert(s =~= trimmed_end(s) + after);
        after
    } else {
        assert(s =~= s + Seq::<char>::empty());
        Seq::empty()
    }
}

/// Trimming gives the core of a text.
proof fn lemma_trimmed_is_core(text: Seq<char>)
    ensures
        is_core_of(trimmed(text), text),
{
    let before = lemma_trimmed_start(text);
    let middle = trimmed_start(text);
    let after = lemma_trimmed_end(middle);
    let core = trimmed(text);
    assert(text =~= before + core + after);
    if core.len() > 0 {
        assert(middle[0] == core[0]);
    }
}

/// Trimming the start of a blank text leaves nothing.
proof fn lemma_trimmed_blank(s: Seq<char>)
    requires
        is_blank(s),
    ensures
        trimmed_start(s).len() == 0,
    decreases s.len(),
{
    if s.len() > 0 {
        assert(is_white_space(s[0]));
        let rest = s.drop_first();
        assert forall|i: int| 0 <= i < rest.len() implies is_white_space(#[trigger] rest[i]) by {
            assert(rest[i] == s[i + 1]);
        }
        lemma_trimmed_blank(rest);
    }
}

/// A text has one core.
proof fn lemma_core_is_trimmed(core: Seq<char>, text: Seq<char>)
    requires
        is_core_of(core, text),
    ensures
        core == trimmed(text),
{
    let (before, after) = choose|before: Seq<char>, after: Seq<char>|
        {
            &&& #[trigger] is_blank(before)
            &&& #[trigger] is_blank(after)
            &&& text == before + core + after
        };
    if core.len() > 0 {
        lemma_trim_blanks(before, core, after);
    } else {
        assert forall|i: int| 0 <= i < text.len() implies is_white_space(#[trigger] text[i]) by {
            if i < before.len() {
                assert(text[i] == before[i]);
            } else {
                assert(text[i] == after[i - before.len()]);
            }
        }
        lemma_trimmed_blank(text);
        assert(core =~= trimmed(text));
    }
}

/// Trimming takes white space off both ends of a text and leaves the rest as it is.
pub proof fn law_trim(s: &str, r: &str)
    requires
        call_ensures(trim, (s,), r),
    ensures
        is_core_of(r@, s@),
{
    lemma_trimmed_is_core(s@);
}

/// Texts are compared, taken apart and put together character by character.
pub proof fn law_text_primitives(
    a: &str,
    b: &str,
    chars: Vec<char>,
    same: bool,
    starts: bool,
    ends: bool,
    both: String,
)
    requires
        call_ensures(chars_of, (a,), chars),
        call_ensures(same_text, (a, b), same),
        call_ensures(starts_with, (a, b), starts),
        call_ensures(ends_with, (a, b), ends),
        call_ensures(joined, (a, b), both),
    ensures
        chars@ == a@,
        same <==> a@ == b@,
        starts <==> exists|rest: Seq<char>| a@ == #[trigger] (b@ + rest),
        ends <==> exists|rest: Seq<char>| a@ == #[trigger] (rest + b@),
        both@.len() == a@.len() + b@.len(),
        forall|i: int| 0 <= i < a@.len() ==> both@[i] == #[trigger] a@[i],
        forall|i: int| 0 <= i < b@.len() ==> both@[a@.len() + i] == #[trigger] b@[i],
{
    if starts {
        assert(a@ =~= b@ + a@.skip(b@.len() as int));
    }
    if exists|rest: Seq<char>| a@ == #[trigger] (b@ + rest) {
        let rest = choose|rest: Seq<char>| a@ == #[trigger] (b@ + rest);
        assert(b@ =~= a@.subrange(0, b@.len() as int));
    }
    if ends {
        assert(a@ =~= a@.take(a@.len() - b@.len()) + b@);
    }
    if exists|rest: Seq<char>| a@ == #[trigger] (rest + b@) {
        let rest = choose|rest: Seq<char>| a@ == #[trigger] (rest + b@);
        assert(b@ =~= a@.subrange(a@.len() - b@.len(), a@.len() as int));
    }
}

/// The lower case of an ASCII text is the text with `a` to `z` in place of `A` to `Z`; that of
/// any other text is what the Unicode tables give, then its ASCII end lowered in the same way.
pub proof fn law_lowercase(s: Seq<char>)
    ensures
        is_ascii_chars(s) ==> {
            &&& lowercase(s).len() == s.len()
            &&& forall|i: int|
                0 <= i < s.len() ==> (#[trigger] lowercase(s)[i] as int) == if 'A' <= s[i] <= 'Z' {
                    s[i] as int + 32
                } else {
                    s[i] as int
                }
        },
        !is_ascii_chars(s) ==> {
            &&& unicode_lowercase(s).is_prefix_of(lowercase(s))
            &&& lowercase(s).len() == unicode_lowercase(s).len() + ascii_tail(s).len()
        },
{
    if !is_ascii_chars(s) {
        assert(lowercase(s).subrange(0, unicode_lowercase(s).len() as int) =~= unicode_lowercase(
            s,
        ));
    }
}

/// The text that a line of bytes carries.
pub open spec fn line_text(line: Seq<u8>) -> Seq<char> {
    if valid_utf8(line) {
        decode_utf8(line)
    } else {
        repaired_text(line)
    }
}

/// The response to a line is the lower case of the line's text without the white space at its
/// ends, all of it and nothing else.
pub proof fn law_read_response(line: &[u8], core: Seq<char>, r: String)
    requires
        call_ensures(read_response, (line,), r),
        is_core_of(core, line_text(line@)),
    ensures
        r@ == lowercase(core),
{
    lemma_core_is_trimmed(core, lossy_text(line@));
}

/// Every text has a core.
pub proof fn law_every_text_has_a_core(text: Seq<char>)
    ensures
        exists|core: Seq<char>| is_core_of(core, text),
{
    lemma_trimmed_is_core(text);
}

/// A response decides only where it is one of the device's two answers: one means success, the
/// other a rollback, and no other response means anything.
pub proof fn law_judge_response(response: &str, r: Option<Result<(), ApiError>>)
    requires
        call_ensures(judge_response, (response,), r),
    ensures
        r == Some(Ok::<(), ApiError>(())) <==> response@ == "fb5f2f27be2de104ac2b192f3e874dda"@,
        r == Some(Err::<(), ApiError>(ApiError::RollbackDetected)) <==> response@
            == "fff66e9b3d962fa319c8068b5c1997cd"@,
        r is None <==> response@ != "fb5f2f27be2de104ac2b192f3e874dda"@ && response@
            != "fff66e9b3d962fa319c8068b5c1997cd"@,
{
    reveal_strlit("fb5f2f27be2de104ac2b192f3e874dda");
    reveal_strlit("fff66e9b3d962fa319c8068b5c1997cd");
    assert("fb5f2f27be2de104ac2b192f3e874dda"@[1] != "fff66e9b3d962fa319c8068b5c1997cd"@[1]);
}

/// A line ends the wait exactly where its response is one of the device's two answers, and is
/// shown exactly where its response is not empty. No bytes mean that the connection is gone.
pub proof fn law_watch_line(line: Vec<u8>, core: Seq<char>, r: WatchStep)
    requires
        call_ensures(watch_step, (WatchEvent::Read(line),), r),
        is_core_of(core, line_text(line@)),
    ensures
        line@.len() == 0 ==> r.show is None && r.outcome == Some(
            Err::<(), ApiError>(ApiError::NotConnected),
        ),
        line@.len() > 0 ==> {
            &&& r.outcome == Some(Ok::<(), ApiError>(())) <==> lowercase(core)
                == "fb5f2f27be2de104ac2b192f3e874dda"@
            &&& r.outcome == Some(Err::<(), ApiError>(ApiError::RollbackDetected)) <==> lowercase(
                core,
            ) == "fff66e9b3d962fa319c8068b5c1997cd"@
            &&& r.outcome is None <==> lowercase(core) != "fb5f2f27be2de104ac2b192f3e874dda"@
                && lowercase(core) != "fff66e9b3d962fa319c8068b5c1997cd"@
            &&& r.show is Some <==> core.len() > 0
            &&& r.show matches Some(text) ==> text@ == lowercase(core)
        },
{
    reveal_strlit("fb5f2f27be2de104ac2b192f3e874dda");
    reveal_strlit("fff66e9b3d962fa319c8068b5c1997cd");
    assert("fb5f2f27be2de104ac2b192f3e874dda"@[1] != "fff66e9b3d962fa319c8068b5c1997cd"@[1]);
    lemma_core_is_trimmed(core, lossy_text(line@));
}

/// A failed read and the end of the time both end the wait, each with its error, and show
/// nothing.
pub proof fn law_watch_ends_without_an_answer(reason: String, failed: WatchStep, late: WatchStep)
    requires
        call_ensures(watch_step, (WatchEvent::ReadFailed(reason),), failed),
        call_ensures(watch_step, (WatchEvent::TimedOut,), late),
    ensures
        failed.show is None,
        failed.outcome == Some(Err::<(), ApiError>(ApiError::Io(reason))),
        late.show is None,
        late.outcome == Some(Err::<(), ApiError>(ApiError::Timeout)),
{
}

/// Opening the output log tells three things, in this order.
pub proof fn law_monitor_messages(r: Vec<String>)
    requires
        call_ensures(monitor_messages, (), r),
    ensures
        r@.len() == 3,
        r@[0]@ == "🚀 Monitor de telnet iniciado"@,
        r@[1]@ == "📡 Conectado ao sistema telnet"@,
        r@[2]@ == "⚡ Aguardando comandos e respostas..."@,
{
    let texts = r@.map_values(|s: String| s@);
    assert(texts.len() == r@.len());
    assert(texts[0] == r@[0]@ && texts[1] == r@[1]@ && texts[2] == r@[2]@);
}

/// A gateway that was found is passed on, and dialled at Telnet's port; one that was not is an
/// error.
pub proof fn law_gateway(
    lookup: Option<String>,
    r: Result<String, ApiError>,
    gateway: &str,
    address: String,
)
    requires
        call_ensures(get_gateway, (lookup,), r),
        call_ensures(telnet_address, (gateway,), address),
    ensures
        lookup matches Some(found) ==> r == Ok::<String, ApiError>(found),
        lookup is None ==> r == Err::<String, ApiError>(ApiError::GatewayNotFound),
        address@.len() == gateway@.len() + 3,
        address@.take(gateway@.len() as int) == gateway@,
        address@.skip(gateway@.len() as int) == ":23"@,
{
    reveal_strlit(":23");
    assert(address@.take(gateway@.len() as int) =~= gateway@);
    assert(address@.skip(gateway@.len() as int) =~= ":23"@);
}

/// The network is the car's exactly where the gateway's address is `192.168.33.` and something
/// behind it; otherwise the error tells the gateway.
pub proof fn law_hotspot(lookup: Option<String>, r: Result<(), ApiError>)
    requires
        call_ensures(is_haval_hotspot, (lookup,), r),
    ensures
        lookup is None ==> r == Err::<(), ApiError>(ApiError::GatewayNotFound),
        lookup matches Some(gateway) ==> {
            &&& r is Ok <==> exists|rest: Seq<char>| gateway@ == #[trigger] ("192.168.33."@ + rest)
            &&& r is Err ==> r == Err::<(), ApiError>(ApiError::NotHavalHotspot(gateway))
        },
{
    if let Some(gateway) = lookup {
        let prefix = "192.168.33."@;
        if r is Ok {
            assert(gateway@ =~= prefix + gateway@.skip(prefix.len() as int));
        }
        if exists|rest: Seq<char>| gateway@ == #[trigger] (prefix + rest) {
            let rest = choose|rest: Seq<char>| gateway@ == #[trigger] (prefix + rest);
            assert(prefix =~= gateway@.subrange(0, prefix.len() as int));
        }
    }
}

/// There is no connection at first. Whether there is one is told as it is, and one may be opened
/// exactly where there is none.
pub proof fn law_connection_state<S>(
    first: ConnectionState<S>,
    state: &ConnectionState<S>,
    connected: bool,
    allowed: Result<(), ApiError>,
)
    requires
        call_ensures(ConnectionState::<S>::new, (), first),
        call_ensures(ConnectionState::<S>::is_connected, (state,), connected),
        call_ensures(ConnectionState::<S>::begin_connect, (state,), allowed),
    ensures
        first@ is None,
        connected <==> state@ is Some,
        connected ==> allowed == Err::<(), ApiError>(ApiError::AlreadyConnected),
        !connected ==> allowed is Ok,
{
}

/// Where there is no connection, the one that was dialled is kept, and a failure to dial is told
/// with its reason. Where there is one it stays, and the other is refused.
pub proof fn law_finish_connect<S>(
    state: &mut ConnectionState<S>,
    dialled: Result<S, String>,
    r: Result<(), ApiError>,
)
    requires
        call_ensures(ConnectionState::<S>::finish_connect, (state, dialled), r),
    ensures
        old(state)@ is Some ==> final(state)@ == old(state)@ && r == Err::<(), ApiError>(
            ApiError::AlreadyConnected,
        ),
        old(state)@ is None && dialled is Ok ==> final(state)@ == Some(dialled->Ok_0) && r is Ok,
        old(state)@ is None && dialled is Err ==> final(state)@ is None && r == Err::<
            (),
            ApiError,
        >(ApiError::Io(dialled->Err_0)),
{
}

/// The connection is handed out as it is held, and what is done to it is done to the one that is
/// held; where there is none, that is the error.
pub proof fn law_stream<S>(state: &mut ConnectionState<S>, r: Result<&mut S, ApiError>)
    requires
        call_ensures(ConnectionState::<S>::stream, (state,), r),
    ensures
        r is Ok <==> old(state)@ is Some,
        r matches Ok(stream) ==> old(state)@ == Some(*stream) && final(state)@ == Some(
            *final(stream),
        ),
        r matches Err(e) ==> e == ApiError::NotConnected && final(state)@ is None,
{
}

/// After disconnecting there is no connection, and it is told whether there was one.
pub proof fn law_disconnect<S>(state: &mut ConnectionState<S>, r: bool)
    requires
        call_ensures(ConnectionState::<S>::disconnect, (state,), r),
    ensures
        final(state)@ is None,
        r <==> old(state)@ is Some,
{
}

/// Each error has its message; those that carry a text tell that text, unchanged.
pub proof fn law_message(error: &ApiError, r: String)
    requires
        call_ensures(ApiError::message, (error,), r),
    ensures
        *error matches ApiError::NotHavalHotspot(gateway) ==> r@
            == "Não conectado ao hotspot do Haval (gateway "@ + gateway@
            + " não inicia com '192.168.33.')"@,
        *error matches ApiError::Io(reason) ==> r@ == "Erro de I/O: "@ + reason@,
        *error is GatewayNotFound ==> r@ == "Falha ao obter o gateway da rede"@,
        *error is NotConnected ==> r@ == "A conexão Telnet não está estabelecida"@,
        *error is AlreadyConnected ==> r@ == "Já está conectado"@,
        *error is RollbackDetected ==> r@
            == "Rollback detectado durante a verificação de instalação"@,
        *error is Timeout ==> r@ == "A resposta esperada não foi recebida a tempo (timeout)"@,
        *error is DownloadFailed ==> r@ == "Falha ao baixar o script de instalação"@,
{
}

/// Where the program reads from, how it names itself, where it writes to and how long it waits.
pub proof fn law_addresses()
    ensures
        SCRIPT_URL@
            == "https://raw.githubusercontent.com/tontonhaval/haval-tool/refs/heads/main/install.sh"@,
        RELEASES_URL@
            == "https://api.github.com/repos/bobaoapae/haval-app-tool-multimidia/releases?per_page=30"@,
        USER_AGENT@ == "haval-tool"@,
        OUTPUT_EVENT@ == "telnet-output"@,
        WATCH_SECONDS == 600,
{
}

} // verus!
