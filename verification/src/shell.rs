//! The commands that are typed into the device's shell.

use vstd::prelude::*;

use crate::text::{chars_of, joined};

verus! {

/// What becomes of one character when `from` is replaced by `to`.
pub open spec fn replaced_char(c: char, from: char, to: Seq<char>) -> Seq<char> {
    if c == from {
        to
    } else {
        seq![c]
    }
}

/// `s` with each occurrence of `from` replaced by `to`.
pub open spec fn replaced(s: Seq<char>, from: char, to: Seq<char>) -> Seq<char>
    decreases s.len(),
{
    if s.len() == 0 {
        Seq::empty()
    } else {
        replaced_char(s.first(), from, to) + replaced(s.drop_first(), from, to)
    }
}

/// A URL for use between single quotes: a quote closes the quoted text, stands for itself
/// behind a backslash, and opens quoted text again.
pub open spec fn quote_escaped(url: Seq<char>) -> Seq<char> {
    replaced(url, '\'', "'\\''"@)
}

/// A script on one line: each line break is written as a backslash and an `n`.
pub open spec fn newline_escaped(script: Seq<char>) -> Seq<char> {
    replaced(script, '\n', "\\n"@)
}

/// The command that runs the install script, with the APK's URL in its environment where one is
/// pinned.
pub open spec fn run_command(pinned_apk_url: Option<Seq<char>>) -> Seq<char> {
    match pinned_apk_url {
        Some(url) => if url.len() > 0 {
            "cd /data/local/tmp && HAVAL_APK_URL='"@ + quote_escaped(url) + "' ./install.sh"@
        } else {
            "cd /data/local/tmp && ./install.sh"@
        },
        None => "cd /data/local/tmp && ./install.sh"@,
    }
}

/// The command that writes the install script on the device.
pub open spec fn upload_command(script: Seq<char>) -> Seq<char> {
    "echo -e '"@ + newline_escaped(script) + "' > /data/local/tmp/install.sh"@
}

/// Replacing goes piece by piece.
pub proof fn lemma_replaced_concat(a: Seq<char>, b: Seq<char>, from: char, to: Seq<char>)
    ensures
        replaced(a + b, from, to) == replaced(a, from, to) + replaced(b, from, to),
    decreases a.len(),
{
    if a.len() == 0 {
        assert(a + b =~= b);
        assert(replaced(a + b, from, to) =~= replaced(a, from, to) + replaced(b, from, to));
    } else {
        assert((a + b).drop_first() =~= a.drop_first() + b);
        assert((a + b).first() == a.first());
        lemma_replaced_concat(a.drop_first(), b, from, to);
        assert(replaced(a + b, from, to) =~= replaced(a, from, to) + replaced(b, from, to));
    }
}

/// Replaces each occurrence of a character by a text.
fn replace_char(s: &str, from: char, to: &str) -> (r: String)
    ensures
        r@ == replaced(s@, from, to@),
{
    let chars = chars_of(s);
    let mut r = String::new();
    for i in 0..chars.len()
        invariant
            chars@ == s@,
            r@ == replaced(s@.take(i as int), from, to@),
    {
        let c = chars[i];
        if c == from {
            r.append(to);
        } else {
            r.push(c);
        }
        proof {
            let one = seq![c];
            assert(s@.take(i + 1) =~= s@.take(i as int) + one);
            lemma_replaced_concat(s@.take(i as int), one, from, to@);
            reveal_with_fuel(replaced, 2);
            assert(replaced(one, from, to@) =~= replaced_char(c, from, to@));
            assert(r@ =~= replaced(s@.take(i + 1), from, to@));
        }
    }
    assert(s@.take(chars.len() as int) =~= s@);
    r
}

/// Builds the command to run the install script, optionally pinning the APK's version via the
/// `HAVAL_APK_URL` environment variable. An empty URL pins nothing.
pub fn build_run_command(pinned_apk_url: Option<&str>) -> (r: String)
    ensures
        r@ == run_command(
            match pinned_apk_url {
                Some(url) => Some(url@),
                None => None,
            },
        ),
{
    match pinned_apk_url {
        Some(url) if !url.is_empty() => {
            let escaped = replace_char(url, '\'', "'\\''");
            let start = joined("cd /data/local/tmp && HAVAL_APK_URL='", escaped.as_str());
            joined(start.as_str(), "' ./install.sh")
        },
        _ => "cd /data/local/tmp && ./install.sh".to_owned(),
    }
}

/// Builds the command to write the install script on the device, on one line.
pub fn build_upload_command(script: &str) -> (r: String)
    ensures
        r@ == upload_command(script@),
{
    let escaped = replace_char(script, '\n', "\\n");
    let start = joined("echo -e '", escaped.as_str());
    joined(start.as_str(), "' > /data/local/tmp/install.sh")
}

/// What goes over the wire for a command: the command and a line break.
pub fn wire_line(command: &str) -> (r: String)
    ensures
        r@ == command@.push('\n'),
{
    let mut r = command.to_owned();
    r.push('\n');
    r
}

/// How a command is shown in the output log.
pub fn command_event(command: &str) -> (r: String)
    ensures
        r@ == "$ "@ + command@,
{
    joined("$ ", command)
}

/// Whether a POSIX shell reads `c` as itself outside quotes, wherever in a word it stands.
pub open spec fn is_plain(c: char) -> bool {
    ||| 'a' <= c <= 'z'
    ||| 'A' <= c <= 'Z'
    ||| '0' <= c <= '9'
    ||| c == '_'
    ||| c == '-'
    ||| c == '.'
    ||| c == '/'
    ||| c == '='
}

/// Puts a text in front of a word that was read.
pub open spec fn with_prefix(
    prefix: Seq<char>,
    word: Option<(Seq<char>, Seq<char>)>,
) -> Option<(Seq<char>, Seq<char>)> {
    match word {
        Some((value, rest)) => Some((prefix + value, rest)),
        None => None,
    }
}

/// How a POSIX shell reads a word that ends at a space or at the end of the line: what the word
/// stands for once its quotes are removed, and what is left of the line. Between single quotes
/// every character stands for itself, up to the next single quote. Outside quotes a backslash
/// makes the next character stand for itself. There is no word where the line ends inside quotes
/// or where a character outside quotes has another meaning to the shell.
pub open spec fn shell_word(line: Seq<char>, quoted: bool) -> Option<(Seq<char>, Seq<char>)>
    decreases line.len(),
{
    if line.len() == 0 {
        if quoted {
            None
        } else {
            Some((Seq::empty(), Seq::empty()))
        }
    } else {
        let c = line.first();
        let rest = line.drop_first();
        if c == '\'' {
            shell_word(rest, !quoted)
        } else if quoted || is_plain(c) {
            with_prefix(seq![c], shell_word(rest, quoted))
        } else if c == '\\' && rest.len() > 0 && rest.first() != '\n' {
            with_prefix(seq![rest.first()], shell_word(rest.drop_first(), false))
        } else if c == ' ' {
            Some((Seq::empty(), line))
        } else {
            None
        }
    }
}

/// Plain characters outside quotes stand for themselves.
proof fn lemma_plain_prefix(prefix: Seq<char>, line: Seq<char>)
    requires
        forall|i: int| 0 <= i < prefix.len() ==> is_plain(#[trigger] prefix[i]),
    ensures
        shell_word(prefix + line, false) == with_prefix(prefix, shell_word(line, false)),
    decreases prefix.len(),
{
    let all = prefix + line;
    if prefix.len() == 0 {
        assert(all =~= line);
        assert(shell_word(line, false) matches Some((value, rest)) ==> prefix + value =~= value);
    } else {
        let rest = prefix.drop_first();
        assert(all.drop_first() =~= rest + line);
        assert(is_plain(prefix[0]) && all.first() == prefix[0]);
        assert forall|i: int| 0 <= i < rest.len() implies is_plain(#[trigger] rest[i]) by {
            assert(rest[i] == prefix[i + 1]);
        }
        lemma_plain_prefix(rest, line);
        assert(shell_word(line, false) matches Some((value, _)) ==> seq![prefix[0]] + (rest + value)
            =~= prefix + value);
    }
}

/// Inside quotes, an escaped URL stands for the URL.
proof fn lemma_quoted_url(url: Seq<char>, line: Seq<char>)
    ensures
        shell_word(quote_escaped(url) + line, true) == with_prefix(url, shell_word(line, true)),
    decreases url.len(),
{
    let all = quote_escaped(url) + line;
    if url.len() == 0 {
        assert(all =~= line);
        assert(shell_word(line, true) matches Some((value, rest)) ==> url + value =~= value);
    } else {
        let rest = url.drop_first();
        let tail = quote_escaped(rest) + line;
        lemma_quoted_url(rest, line);
        assert(shell_word(line, true) matches Some((value, _)) ==> seq![url.first()] + (rest
            + value) =~= url + value);
        if url.first() == '\'' {
            reveal_strlit("'\\''");
            assert(all =~= seq!['\'', '\\', '\'', '\''] + tail);
            let a = all.drop_first();
            assert(a =~= seq!['\\', '\'', '\''] + tail);
            let b = a.drop_first().drop_first();
            assert(b =~= seq!['\''] + tail);
            assert(b.drop_first() =~= tail);
            assert(shell_word(all, true) == shell_word(a, false));
            assert(shell_word(b, false) == shell_word(tail, true));
            assert(shell_word(a, false) == with_prefix(seq!['\''], shell_word(b, false)));
        } else {
            assert(all.first() == url.first());
            assert(all.drop_first() =~= tail);
        }
    }
}

/// The shell hands the install script the URL that was pinned, whatever characters it holds: the
/// second command of the line sets `HAVAL_APK_URL` to exactly that URL and then runs the script.
pub proof fn law_pinned_url_survives_the_shell(url: Seq<char>)
    requires
        url.len() > 0,
    ensures
        "cd /data/local/tmp && "@.is_prefix_of(run_command(Some(url))),
        shell_word(run_command(Some(url)).skip("cd /data/local/tmp && "@.len() as int), false)
            == Some(("HAVAL_APK_URL="@ + url, " ./install.sh"@)),
{
    reveal_strlit("cd /data/local/tmp && HAVAL_APK_URL='");
    reveal_strlit("cd /data/local/tmp && ");
    reveal_strlit("HAVAL_APK_URL=");
    reveal_strlit("' ./install.sh");
    reveal_strlit(" ./install.sh");
    let line = run_command(Some(url));
    let start = "cd /data/local/tmp && "@;
    let name = "HAVAL_APK_URL="@;
    let end = "' ./install.sh"@;
    assert("cd /data/local/tmp && HAVAL_APK_URL='"@ =~= start + name + seq!['\'']);
    assert(line.subrange(0, start.len() as int) =~= start);
    let quoted = seq!['\''] + quote_escaped(url) + end;
    assert(line.skip(start.len() as int) =~= name + quoted);
    lemma_plain_prefix(name, quoted);
    assert(quoted.drop_first() =~= quote_escaped(url) + end);
    lemma_quoted_url(url, end);
    assert(end.drop_first() =~= " ./install.sh"@);
    assert(shell_word(" ./install.sh"@, false) == Some((Seq::<char>::empty(), " ./install.sh"@)));
    assert(shell_word(end, true) == shell_word(" ./install.sh"@, false));
    assert(url + Seq::<char>::empty() =~= url);
}

/// An empty URL pins nothing.
pub proof fn law_empty_url_pins_nothing()
    ensures
        run_command(Some(Seq::empty())) == run_command(None),
{
}

/// How `echo -e` prints a text, where its only escapes are line breaks: there is no answer where
/// a backslash is not followed by an `n`.
pub open spec fn echo_printed(s: Seq<char>) -> Option<Seq<char>>
    decreases s.len(),
{
    if s.len() == 0 {
        Some(Seq::empty())
    } else if s.first() != '\\' {
        match echo_printed(s.drop_first()) {
            Some(printed) => Some(seq![s.first()] + printed),
            None => None,
        }
    } else if s.len() > 1 && s[1] == 'n' {
        match echo_printed(s.skip(2)) {
            Some(printed) => Some(seq!['\n'] + printed),
            None => None,
        }
    } else {
        None
    }
}

/// A replaced character is gone, unless the replacement brings it back.
proof fn lemma_replaced_is_gone(s: Seq<char>, from: char, to: Seq<char>)
    requires
        !to.contains(from),
    ensures
        !replaced(s, from, to).contains(from),
    decreases s.len(),
{
    if s.len() > 0 {
        lemma_replaced_is_gone(s.drop_first(), from, to);
        let head = replaced_char(s.first(), from, to);
        let tail = replaced(s.drop_first(), from, to);
        assert forall|i: int| 0 <= i < (head + tail).len() implies (head + tail)[i] != from by {
            if i < head.len() {
                assert(head[i] == (head + tail)[i]);
            } else {
                assert(tail[i - head.len()] == (head + tail)[i]);
            }
        }
    }
}

/// The script is sent as one line, however many it has.
pub proof fn law_upload_is_one_line(script: Seq<char>)
    ensures
        !upload_command(script).contains('\n'),
{
    reveal_strlit("\\n");
    reveal_strlit("echo -e '");
    reveal_strlit("' > /data/local/tmp/install.sh");
    lemma_replaced_is_gone(script, '\n', "\\n"@);
    let start = "echo -e '"@;
    let middle = newline_escaped(script);
    let end = "' > /data/local/tmp/install.sh"@;
    assert forall|i: int| 0 <= i < upload_command(script).len() implies upload_command(script)[i]
        != '\n' by {
        if start.len() <= i < start.len() + middle.len() {
            assert(middle[i - start.len()] == upload_command(script)[i]);
        }
    }
}

/// Inside quotes, a text without quotes stands for itself.
proof fn lemma_quoted_text(s: Seq<char>, line: Seq<char>)
    requires
        !s.contains('\''),
    ensures
        shell_word(s + line, true) == with_prefix(s, shell_word(line, true)),
    decreases s.len(),
{
    let all = s + line;
    if s.len() == 0 {
        assert(all =~= line);
        assert(shell_word(line, true) matches Some((value, rest)) ==> s + value =~= value);
    } else {
        let rest = s.drop_first();
        assert(all.drop_first() =~= rest + line);
        assert(all.first() == s[0]);
        assert(!rest.contains('\'')) by {
            assert forall|i: int| 0 <= i < rest.len() implies rest[i] != '\'' by {
                assert(rest[i] == s[i + 1]);
            }
        }
        lemma_quoted_text(rest, line);
        assert(shell_word(line, true) matches Some((value, _)) ==> seq![s.first()] + (rest + value)
            =~= s + value);
    }
}

/// Writing line breaks as escapes is undone by `echo -e`.
proof fn lemma_echo_undoes_escape(script: Seq<char>)
    requires
        !script.contains('\\'),
    ensures
        echo_printed(newline_escaped(script)) == Some(script),
    decreases script.len(),
{
    if script.len() == 0 {
        assert(script =~= Seq::empty());
    } else {
        let rest = script.drop_first();
        let tail = newline_escaped(rest);
        assert(!rest.contains('\\')) by {
            assert forall|i: int| 0 <= i < rest.len() implies rest[i] != '\\' by {
                assert(rest[i] == script[i + 1]);
            }
        }
        lemma_echo_undoes_escape(rest);
        assert(script[0] != '\\');
        assert(seq![script.first()] + rest =~= script);
        let all = newline_escaped(script);
        if script.first() == '\n' {
            reveal_strlit("\\n");
            assert(all =~= seq!['\\', 'n'] + tail);
            assert(all.skip(2) =~= tail);
        } else {
            assert(all.drop_first() =~= tail);
        }
    }
}

/// A script keeps its quotes out of the escape.
proof fn lemma_escape_keeps_quotes_out(script: Seq<char>)
    requires
        !script.contains('\''),
    ensures
        !newline_escaped(script).contains('\''),
    decreases script.len(),
{
    if script.len() > 0 {
        let rest = script.drop_first();
        assert(!rest.contains('\'')) by {
            assert forall|i: int| 0 <= i < rest.len() implies rest[i] != '\'' by {
                assert(rest[i] == script[i + 1]);
            }
        }
        lemma_escape_keeps_quotes_out(rest);
        reveal_strlit("\\n");
        let head = replaced_char(script.first(), '\n', "\\n"@);
        let tail = newline_escaped(rest);
        assert(script[0] != '\'');
        assert forall|i: int| 0 <= i < (head + tail).len() implies (head + tail)[i] != '\'' by {
            if i < head.len() {
                assert(head[i] == (head + tail)[i]);
            } else {
                assert(tail[i - head.len()] == (head + tail)[i]);
            }
        }
    }
}

/// The device gets the script as it was, where the script holds neither a single quote nor a
/// backslash: the shell hands `echo -e` one word, which it prints as the script, into the file.
pub proof fn law_script_survives_the_upload(script: Seq<char>)
    requires
        !script.contains('\''),
        !script.contains('\\'),
    ensures
        "echo -e "@.is_prefix_of(upload_command(script)),
        shell_word(upload_command(script).skip("echo -e "@.len() as int), false) == Some(
            (newline_escaped(script), " > /data/local/tmp/install.sh"@),
        ),
        echo_printed(newline_escaped(script)) == Some(script),
{
    reveal_strlit("echo -e '");
    reveal_strlit("echo -e ");
    reveal_strlit("' > /data/local/tmp/install.sh");
    reveal_strlit(" > /data/local/tmp/install.sh");
    let line = upload_command(script);
    let word = newline_escaped(script);
    let end = "' > /data/local/tmp/install.sh"@;
    let rest = " > /data/local/tmp/install.sh"@;
    assert(line.subrange(0, 8) =~= "echo -e "@);
    assert(line.skip(8) =~= seq!['\''] + word + end);
    assert(line.skip(8).drop_first() =~= word + end);
    lemma_escape_keeps_quotes_out(script);
    lemma_quoted_text(word, end);
    assert(end.drop_first() =~= rest);
    assert(shell_word(rest, false) == Some((Seq::<char>::empty(), rest)));
    assert(shell_word(end, true) == shell_word(rest, false));
    assert(word + Seq::<char>::empty() =~= word);
    lemma_echo_undoes_escape(script);
}

} // verus!
