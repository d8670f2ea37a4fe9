//! Docker images and containers: file names, commands, and what their results mean.
use vstd::prelude::*;

use crate::config;
use crate::outside;
use crate::ssh_mgr::ExitStatus;
use crate::text;

verus! {

// ---------------------------------------------------------------------------------------------
// File names for images
// ---------------------------------------------------------------------------------------------
/// Whether a character of an image name is kept in a file name.
pub open spec fn keeps(c: char) -> bool {
    outside::alphanumeric(c) && c != '-'
}

/// The unbroken rows of kept characters.
pub open spec fn kept_words(s: Seq<char>) -> Seq<Seq<char>>
    decreases s.len(),
{
    if s.len() == 0 {
        Seq::empty()
    } else {
        let before = kept_words(s.drop_last());
        if !keeps(s.last()) {
            before
        } else if s.len() > 1 && keeps(s[s.len() - 2]) {
            before.drop_last().push(before.last().push(s.last()))
        } else {
            before.push(seq![s.last()])
        }
    }
}

/// An image name as part of a file name: the rows of kept characters with hyphens between them.
pub open spec fn sanitized(image: Seq<char>) -> Seq<char> {
    text::joined(kept_words(image), "-"@)
}

/// Whether these are rows of kept characters, none of them empty.
pub open spec fn are_kept_words(words: Seq<Seq<char>>) -> bool {
    forall|i: int|
        0 <= i < words.len() ==> (#[trigger] words[i]).len() > 0 && forall|k: int|
            0 <= k < words[i].len() ==> keeps(#[trigger] words[i][k])
}

proof fn kept_words_are_kept(s: Seq<char>)
    ensures
        are_kept_words(kept_words(s)),
        s.len() > 0 && keeps(s.last()) ==> kept_words(s).len() > 0,
    decreases s.len(),
{
    if s.len() > 0 {
        kept_words_are_kept(s.drop_last());
        if s.len() > 1 {
            assert(s.drop_last().last() == s[s.len() - 2]);
        }
    }
}

/// A file name made of kept words has only kept characters and single hyphens between them.
proof fn joined_words_are_clean(words: Seq<Seq<char>>)
    requires
        are_kept_words(words),
    ensures
        ({
            let name = text::joined(words, "-"@);
            &&& words.len() > 0 <==> name.len() > 0
            &&& forall|k: int| 0 <= k < name.len() ==> #[trigger] name[k] == '-' || keeps(name[k])
            &&& name.len() > 0 ==> keeps(name[0]) && keeps(name.last())
            &&& forall|k: int| 0 < k < name.len() && #[trigger] name[k] == '-' ==> name[k - 1] != '-'
        }),
    decreases words.len(),
{
    reveal_strlit("-");
    if words.len() == 1 {
        let word = words[0];
        assert forall|k: int| 0 <= k < word.len() implies keeps(#[trigger] word[k]) by {
            assert(keeps(words[0][k]));
        }
    } else if words.len() > 1 {
        let front = words.drop_last();
        assert(are_kept_words(front)) by {
            assert forall|i: int| 0 <= i < front.len() implies (#[trigger] front[i]).len() > 0
                && forall|k: int| 0 <= k < front[i].len() ==> keeps(#[trigger] front[i][k]) by {
                assert(front[i] == words[i]);
            }
        }
        joined_words_are_clean(front);
        let head = text::joined(front, "-"@);
        let last = words.last();
        let name = text::joined(words, "-"@);
        assert(name =~= head + "-"@ + last);
        assert forall|k: int| 0 <= k < last.len() implies keeps(#[trigger] last[k]) by {
            assert(keeps(words[words.len() - 1][k]));
        }
        assert forall|k: int| 0 <= k < name.len() implies #[trigger] name[k] == '-' || keeps(
            name[k],
        ) by {
            if k > head.len() {
                assert(name[k] == last[k - head.len() - 1]);
            }
        }
        assert forall|k: int| 0 < k < name.len() && #[trigger] name[k] == '-' implies name[k - 1]
            != '-' by {
            if k > head.len() {
                assert(name[k] == last[k - head.len() - 1]);
            } else if k == head.len() {
                assert(name[k - 1] == head.last());
            } else {
                assert(name[k - 1] == head[k - 1]);
                assert(name[k] == head[k]);
            }
        }
        assert(name[0] == head[0]);
        assert(name.last() == last[last.len() - 1]);
    }
}

/// A sanitized name holds only letters, digits and hyphens, has no hyphen at its beginning or at its
/// end, and no two in a row.
pub proof fn sanitized_names_are_clean(image: Seq<char>)
    ensures
        ({
            let name = sanitized(image);
            &&& forall|k: int| 0 <= k < name.len() ==> #[trigger] name[k] == '-' || keeps(name[k])
            &&& name.len() > 0 ==> name[0] != '-' && name.last() != '-'
            &&& forall|k: int| 0 < k < name.len() && #[trigger] name[k] == '-' ==> name[k - 1] != '-'
        }),
{
    kept_words_are_kept(image);
    joined_words_are_clean(kept_words(image));
}

proof fn kept_words_of_appended(s: Seq<char>, word: Seq<char>)
    requires
        s.len() == 0 || !keeps(s.last()),
        word.len() > 0,
        forall|k: int| 0 <= k < word.len() ==> keeps(#[trigger] word[k]),
    ensures
        kept_words(s + word) == kept_words(s).push(word),
    decreases word.len(),
{
    let whole = s + word;
    let front = word.drop_last();
    assert(whole.drop_last() =~= s + front);
    assert(whole.last() == word.last());
    assert(keeps(word[word.len() - 1]));
    if front.len() == 0 {
        assert(s + front =~= s);
        assert(word =~= seq![word.last()]);
        if whole.len() > 1 {
            assert(whole[whole.len() - 2] == s.last());
        }
    } else {
        assert forall|k: int| 0 <= k < front.len() implies keeps(#[trigger] front[k]) by {
            assert(front[k] == word[k]);
        }
        kept_words_of_appended(s, front);
        assert(whole[whole.len() - 2] == front[front.len() - 1]);
        let before = kept_words(s).push(front);
        assert(before.drop_last() =~= kept_words(s));
        assert(front.push(word.last()) =~= word);
    }
}

proof fn kept_words_of_joined(words: Seq<Seq<char>>)
    requires
        are_kept_words(words),
    ensures
        kept_words(text::joined(words, "-"@)) == words,
    decreases words.len(),
{
    reveal_strlit("-");
    if words.len() == 0 {
        assert(words =~= Seq::empty());
    } else {
        let last = words.last();
        assert forall|k: int| 0 <= k < last.len() implies keeps(#[trigger] last[k]) by {
            assert(keeps(words[words.len() - 1][k]));
        }
        assert(words[words.len() - 1].len() > 0);
        if words.len() == 1 {
            kept_words_of_appended(Seq::empty(), last);
            assert(Seq::<char>::empty() + last =~= last);
            assert(words =~= seq![last]);
            assert(kept_words(Seq::<char>::empty()).push(last) =~= words);
        } else {
            let front = words.drop_last();
            assert(are_kept_words(front)) by {
                assert forall|i: int| 0 <= i < front.len() implies (#[trigger] front[i]).len() > 0
                    && forall|k: int| 0 <= k < front[i].len() ==> keeps(#[trigger] front[i][k]) by {
                    assert(front[i] == words[i]);
                }
            }
            kept_words_of_joined(front);
            let head = text::joined(front, "-"@) + "-"@;
            assert(head.drop_last() =~= text::joined(front, "-"@));
            assert(head.last() == '-');
            assert(kept_words(head) == front);
            kept_words_of_appended(head, last);
            assert(front.push(last) =~= words);
        }
    }
}

/// Sanitizing a sanitized name changes nothing.
pub proof fn sanitizing_twice_is_sanitizing_once(image: Seq<char>)
    ensures
        sanitized(sanitized(image)) == sanitized(image),
{
    kept_words_are_kept(image);
    kept_words_of_joined(kept_words(image));
}

/// Letters and digits are kept, and nothing else is.
pub proof fn letters_and_digits_are_kept(c: char)
    ensures
        keeps(c) ==> outside::alphanumeric(c),
        outside::alphanumeric(c) && c != '-' ==> keeps(c),
        !keeps('-'),
{
}

/// A name of letters and digits alone stays as it is.
pub proof fn clean_names_stay(name: Seq<char>)
    requires
        forall|k: int| 0 <= k < name.len() ==> keeps(#[trigger] name[k]),
    ensures
        sanitized(name) == name,
{
    if name.len() > 0 {
        kept_words_of_appended(Seq::empty(), name);
        assert(Seq::<char>::empty() + name =~= name);
        assert(kept_words(Seq::<char>::empty()) =~= Seq::empty());
        assert(kept_words(name) =~= seq![name]);
    } else {
        assert(name =~= Seq::empty());
    }
}

proof fn kept_words_come_apart(a: Seq<char>, c: char, b: Seq<char>)
    requires
        !keeps(c),
    ensures
        kept_words(a + seq![c] + b) == kept_words(a) + kept_words(b),
    decreases b.len(),
{
    let whole = a + seq![c] + b;
    if b.len() == 0 {
        assert(whole.drop_last() =~= a);
        assert(whole.last() == c);
        assert(kept_words(a) + kept_words(b) =~= kept_words(a));
    } else {
        let front = b.drop_last();
        kept_words_come_apart(a, c, front);
        assert(whole.drop_last() =~= a + seq![c] + front);
        assert(whole.last() == b.last());
        assert(whole[whole.len() - 2] == if b.len() > 1 {
            b[b.len() - 2]
        } else {
            c
        });
        if keeps(b.last()) {
            if b.len() > 1 && keeps(b[b.len() - 2]) {
                kept_words_are_kept(front);
                assert(front.last() == b[b.len() - 2]);
                let before = kept_words(a) + kept_words(front);
                assert(before.last() == kept_words(front).last());
                assert(before.drop_last().push(before.last().push(b.last())) =~= kept_words(a)
                    + kept_words(b));
            } else {
                assert((kept_words(a) + kept_words(front)).push(seq![b.last()]) =~= kept_words(a)
                    + kept_words(b));
            }
        }
    }
}

proof fn joined_lists(a: Seq<Seq<char>>, b: Seq<Seq<char>>, sep: Seq<char>)
    requires
        a.len() > 0,
        b.len() > 0,
    ensures
        text::joined(a + b, sep) == text::joined(a, sep) + sep + text::joined(b, sep),
    decreases b.len(),
{
    let all = a + b;
    assert(all.last() == b.last());
    if b.len() == 1 {
        assert(all.drop_last() =~= a);
        assert(text::joined(b, sep) == b[0]);
    } else {
        joined_lists(a, b.drop_last(), sep);
        assert(all.drop_last() =~= a + b.drop_last());
        assert(text::joined(all, sep) =~= text::joined(a, sep) + sep + text::joined(b, sep));
    }
}

/// Whatever is neither letter nor digit parts a name: what stands on both sides is sanitized by
/// itself, and one hyphen stands between the two where neither is empty.
pub proof fn other_characters_part_names(a: Seq<char>, c: char, b: Seq<char>)
    requires
        !keeps(c),
    ensures
        sanitized(a).len() == 0 ==> sanitized(a + seq![c] + b) == sanitized(b),
        sanitized(b).len() == 0 ==> sanitized(a + seq![c] + b) == sanitized(a),
        sanitized(a).len() > 0 && sanitized(b).len() > 0 ==> sanitized(a + seq![c] + b)
            == sanitized(a) + seq!['-'] + sanitized(b),
{
    reveal_strlit("-");
    kept_words_come_apart(a, c, b);
    words_show(a);
    words_show(b);
    let words = kept_words(a);
    let more = kept_words(b);
    if words.len() == 0 {
        assert(words + more =~= more);
    }
    if more.len() == 0 {
        assert(words + more =~= words);
    }
    if words.len() > 0 && more.len() > 0 {
        joined_lists(words, more, "-"@);
        assert("-"@ =~= seq!['-']);
    }
}

/// A name is empty if and only if it has no words.
proof fn words_show(s: Seq<char>)
    ensures
        sanitized(s).len() == 0 <==> kept_words(s).len() == 0,
{
    let words = kept_words(s);
    kept_words_are_kept(s);
    if words.len() > 0 {
        assert(words[words.len() - 1].len() > 0);
        if words.len() == 1 {
            assert(sanitized(s) == words[0]);
        }
    }
}

/// Whether it is known of the ASCII characters of a text which of them are letters or digits.
pub open spec fn ascii_is_known(s: Seq<char>) -> bool {
    forall|k: int|
        0 <= k < s.len() && (#[trigger] s[k] as int) < 128 ==> outside::alphanumeric(s[k])
            == outside::ascii_alphanumeric(s[k])
}

/// An image name as part of a file name: everything but letters and digits becomes a hyphen, several
/// in a row become one, and none is left at the beginning or at the end.
pub fn sanitize_image_name(image: &str) -> (r: String)
    ensures
        r@ == sanitized(image@),
        ascii_is_known(image@),
{
    let cs = text::chars_of(image);
    let mut out = String::new();
    let mut started = false;
    let mut inside = false;
    let mut i: usize = 0;
    proof {
        reveal_strlit("-");
        assert(image@.take(0) =~= Seq::empty());
    }
    while i < cs.len()
        invariant
            i <= cs@.len(),
            cs@ == image@,
            "-"@ =~= seq!['-'],
            forall|k: int|
                0 <= k < i && (#[trigger] image@[k] as int) < 128 ==> outside::alphanumeric(
                    image@[k],
                ) == outside::ascii_alphanumeric(image@[k]),
            out@ == sanitized(image@.take(i as int)),
            started == (kept_words(image@.take(i as int)).len() > 0),
            inside == (i > 0 && keeps(image@[i - 1])),
        decreases cs@.len() - i,
    {
        let c = cs[i];
        let kept = c.is_alphanumeric() && c != '-';
        let ghost done = image@.take(i as int);
        let ghost next = image@.take(i + 1);
        let ghost words = kept_words(done);
        let ghost before = out@;
        proof {
            assert(next.drop_last() =~= done);
            assert(next.last() == c);
            if i > 0 {
                assert(next[next.len() - 2] == image@[i - 1]);
                assert(done.last() == image@[i - 1]);
            }
            kept_words_are_kept(done);
        }
        if kept {
            if inside {
                out.push(c);
                proof {
                    assert(words.len() > 0);
                    let grown = words.drop_last().push(words.last().push(c));
                    assert(grown.drop_last() =~= words.drop_last());
                    if words.len() > 1 {
                        assert(before =~= text::joined(words.drop_last(), "-"@) + "-"@
                            + words.last());
                    }
                    assert(out@ =~= text::joined(grown, "-"@));
                }
            } else {
                if started {
                    out.push('-');
                }
                out.push(c);
                proof {
                    let grown = words.push(seq![c]);
                    assert(grown.drop_last() =~= words);
                    assert(out@ =~= text::joined(grown, "-"@));
                }
                started = true;
            }
        }
        inside = kept;
        i = i + 1;
    }
    assert(image@.take(image@.len() as int) =~= image@);
    out
}

/// Where the archive of an image is kept for the time being.
pub open spec fn archive_path(image: Seq<char>) -> Seq<char> {
    "/tmp/tm-image-"@ + sanitized(image) + ".tar.gz"@
}

/// Where the archive of an image is kept for the time being, here and on the hosts.
pub fn temp_archive_path(image: &str) -> (r: String)
    ensures
        r@ == archive_path(image@),
        ascii_is_known(image@),
{
    let mut out = "/tmp/tm-image-".to_owned();
    out.push_str(sanitize_image_name(image).as_str());
    out.push_str(".tar.gz");
    out
}

// ---------------------------------------------------------------------------------------------
// Local images
// ---------------------------------------------------------------------------------------------
/// The arguments with which `docker` tells one thing of an image.
fn inspect_args(what: &str, image: &str) -> (r: Vec<String>)
    ensures
        text::texts(r@) == seq!["image"@, "inspect"@, "--format"@, what@, image@],
{
    let mut args = text::no_texts();
    text::push_text(&mut args, "image");
    text::push_text(&mut args, "inspect");
    text::push_text(&mut args, "--format");
    text::push_text(&mut args, what);
    text::push_text(&mut args, image);
    assert(text::texts(args@) =~= seq!["image"@, "inspect"@, "--format"@, what@, image@]);
    args
}

/// The arguments with which `docker` tells the ID of an image.
pub fn image_id_args(image: &str) -> (r: Vec<String>)
    ensures
        text::texts(r@) == seq!["image"@, "inspect"@, "--format"@, "{{.Id}}"@, image@],
{
    inspect_args("{{.Id}}", image)
}

/// The arguments with which `docker` tells the size of an image.
pub fn image_size_args(image: &str) -> (r: Vec<String>)
    ensures
        text::texts(r@) == seq!["image"@, "inspect"@, "--format"@, "{{.Size}}"@, image@],
{
    inspect_args("{{.Size}}", image)
}

/// The arguments with which `docker` pulls an image.
pub fn pull_args(image: &str) -> (r: Vec<String>)
    ensures
        text::texts(r@) == seq!["pull"@, image@],
{
    let mut args = text::no_texts();
    text::push_text(&mut args, "pull");
    text::push_text(&mut args, image);
    assert(text::texts(args@) =~= seq!["pull"@, image@]);
    args
}

/// The message for an image that is not here.
pub open spec fn no_image_message(image: Seq<char>) -> Seq<char> {
    "Docker image '"@ + image
        + "' not found locally. Build it with:\n  docker build -t "@ + image
        + " <path-to-build-context>"@
}

/// The ID of an image, from the text that `docker` wrote about it.
pub fn read_image_id(image: &str, success: bool, shown: &str) -> (r: Result<String, String>)
    ensures
        match r {
            Ok(id) => success && id@ == text::trimmed(shown@),
            Err(message) => !success && message@ == no_image_message(image@),
        },
{
    if success {
        return Ok(text::trim(shown));
    }
    let mut out = "Docker image '".to_owned();
    out.push_str(image);
    out.push_str("' not found locally. Build it with:\n  docker build -t ");
    out.push_str(image);
    out.push_str(" <path-to-build-context>");
    Err(out)
}

/// The ID of an image, from what `docker` wrote about it.
pub fn check_local_image(image: &str, success: bool, stdout: &[u8]) -> (r: Result<String, String>)
    ensures
        match r {
            Ok(id) => success && id@ == text::trimmed(outside::lossy_text(stdout@)),
            Err(message) => !success && message@ == no_image_message(image@),
        },
{
    read_image_id(image, success, outside::text_of_bytes(stdout).as_str())
}

/// The size of an image in bytes, from the text that `docker` wrote about it.
pub fn read_image_size(shown: &str) -> (r: Result<u64, String>)
    ensures
        match text::parsed_u64(text::trimmed(shown@)) {
            Some(n) => r == Ok::<u64, String>(n),
            None => r matches Err(message) && message@ == "failed to parse image size: "@
                + text::trimmed(shown@),
        },
{
    let trimmed = text::trim(shown);
    match text::parse_u64(trimmed.as_str()) {
        Some(n) => Ok(n),
        None => {
            let mut out = "failed to parse image size: ".to_owned();
            out.push_str(trimmed.as_str());
            Err(out)
        },
    }
}

/// The size of an image in bytes, from what `docker` wrote about it.
pub fn get_image_size(image: &str, success: bool, stdout: &[u8]) -> (r: Result<u64, String>)
    ensures
        if !success {
            r matches Err(message) && message@ == "failed to get size of Docker image '"@ + image@
                + "'"@
        } else {
            match text::parsed_u64(text::trimmed(outside::lossy_text(stdout@))) {
                Some(n) => r == Ok::<u64, String>(n),
                None => r matches Err(message) && message@ == "failed to parse image size: "@
                    + text::trimmed(outside::lossy_text(stdout@)),
            }
        },
{
    if success {
        return read_image_size(outside::text_of_bytes(stdout).as_str());
    }
    let mut out = "failed to get size of Docker image '".to_owned();
    out.push_str(image);
    out.push_str("'");
    Err(out)
}

/// Judges how pulling an image went, from the text of the error.
pub fn read_pull(image: &str, success: bool, shown: &str) -> (r: Result<(), String>)
    ensures
        match r {
            Ok(()) => success,
            Err(message) => !success && message@ == "docker pull '"@ + image@ + "' failed: "@
                + text::trimmed(shown@),
        },
{
    if success {
        return Ok(());
    }
    let mut out = "docker pull '".to_owned();
    out.push_str(image);
    out.push_str("' failed: ");
    out.push_str(text::trim(shown).as_str());
    Err(out)
}

/// Judges how pulling an image went.
pub fn check_pull(image: &str, success: bool, stderr: &[u8]) -> (r: Result<(), String>)
    ensures
        match r {
            Ok(()) => success,
            Err(message) => !success && message@ == "docker pull '"@ + image@ + "' failed: "@
                + text::trimmed(outside::lossy_text(stderr@)),
        },
{
    read_pull(image, success, outside::text_of_bytes(stderr).as_str())
}

// ---------------------------------------------------------------------------------------------
// Images on hosts
// ---------------------------------------------------------------------------------------------
/// The command that tells the ID of an image on a host.
pub fn remote_image_command(image: &str) -> (r: String)
    ensures
        r@ == "docker image inspect --format '{{.Id}}' '"@ + image@ + "'"@,
{
    let mut out = "docker image inspect --format '{{.Id}}' '".to_owned();
    out.push_str(image);
    out.push_str("'");
    out
}

/// Whether a host needs an image: it has none, or another one than here.
pub open spec fn needs_image(exit_code: i32, output: Seq<char>, local_id: Seq<char>) -> bool {
    exit_code != 0 || text::trimmed(output) != local_id
}

/// What is logged about an image on a host.
pub open spec fn remote_image_note(
    host: Seq<char>,
    image: Seq<char>,
    exit_code: i32,
    output: Seq<char>,
    local_id: Seq<char>,
) -> Seq<char> {
    if exit_code != 0 {
        "image '"@ + image + "' missing on "@ + host
    } else if text::trimmed(output) == local_id {
        "image '"@ + image + "' present on "@ + host + " (ID matches)"@
    } else {
        "image '"@ + image + "' stale on "@ + host + " (local="@ + local_id + ", remote="@
            + text::trimmed(output) + ")"@
    }
}

/// Whether a host needs an image, from how the command that tells the ID of the image ended there:
/// the address of the host if so, and what to log.
pub fn check_remote_image_blocking(
    host_address: &str,
    image: &str,
    output: &str,
    exit_code: i32,
    local_id: &str,
) -> (r: (Option<String>, String))
    ensures
        config::option_text(r.0) == if needs_image(exit_code, output@, local_id@) {
            Some(host_address@)
        } else {
            None
        },
        r.1@ == remote_image_note(host_address@, image@, exit_code, output@, local_id@),
{
    let mut note = "image '".to_owned();
    note.push_str(image);
    if exit_code != 0 {
        note.push_str("' missing on ");
        note.push_str(host_address);
        return (Some(host_address.to_owned()), note);
    }
    let remote_id = text::trim(output);
    if text::same_text(remote_id.as_str(), local_id) {
        note.push_str("' present on ");
        note.push_str(host_address);
        note.push_str(" (ID matches)");
        (None, note)
    } else {
        note.push_str("' stale on ");
        note.push_str(host_address);
        note.push_str(" (local=");
        note.push_str(local_id);
        note.push_str(", remote=");
        note.push_str(remote_id.as_str());
        note.push_str(")");
        (Some(host_address.to_owned()), note)
    }
}

/// The command that writes the archive of an image.
pub fn export_command(image: &str, archive: &str) -> (r: String)
    ensures
        r@ == "docker save '"@ + image@ + "' | gzip > '"@ + archive@ + "'"@,
{
    let mut out = "docker save '".to_owned();
    out.push_str(image);
    out.push_str("' | gzip > '");
    out.push_str(archive);
    out.push_str("'");
    out
}

/// What to do while an image is written to an archive.
pub enum ExportStep {
    /// Look again after a moment.
    Poll,
    /// The archive is complete.
    Done,
    /// The archive could not be written.
    Failed(String),
}

/// What to do while an image is written to an archive, from whether the command has ended and how.
pub fn export_next(image: &str, ended: Option<bool>) -> (r: ExportStep)
    ensures
        match ended {
            None => r is Poll,
            Some(true) => r is Done,
            Some(false) => r matches ExportStep::Failed(message) && message@
                == "docker save failed for '"@ + image@ + "'"@,
        },
{
    match ended {
        None => ExportStep::Poll,
        Some(true) => ExportStep::Done,
        Some(false) => {
            let mut out = "docker save failed for '".to_owned();
            out.push_str(image);
            out.push_str("'");
            ExportStep::Failed(out)
        },
    }
}

/// The message for a transfer that was not begun because the image could not be exported.
pub open spec fn export_cancelled_message(image: Seq<char>, host: Seq<char>) -> Seq<char> {
    "export of '"@ + image + "' was cancelled, skipping transfer to "@ + host
}

/// The message for a transfer that was not begun because the image could not be exported.
pub fn export_cancelled(image: &str, host: &str) -> (r: String)
    ensures
        r@ == export_cancelled_message(image@, host@),
{
    let mut out = "export of '".to_owned();
    out.push_str(image);
    out.push_str("' was cancelled, skipping transfer to ");
    out.push_str(host);
    out
}

/// The message for something that failed on a host.
pub open spec fn failed_on_host(what: Seq<char>, host: Seq<char>, err: Seq<char>) -> Seq<char> {
    "failed to "@ + what + " on "@ + host + ": "@ + err
}

/// The message for something that failed on a host.
pub fn explain_failure(what: &str, host: &str, err: &str) -> (r: String)
    ensures
        r@ == failed_on_host(what@, host@, err@),
{
    let mut out = "failed to ".to_owned();
    out.push_str(what);
    out.push_str(" on ");
    out.push_str(host);
    out.push_str(": ");
    out.push_str(err);
    out
}

/// A step of loading an image on a host.
pub enum ImportStep {
    /// Run the command that loads the archive.
    Load(String),
    /// Run the command that removes the archive.
    Cleanup(String),
    /// The image is loaded.
    Done,
    /// The image could not be loaded, or its archive not be removed.
    Failed(String),
}

/// What a step of loading an image says.
pub enum ImportView {
    Load(Seq<char>),
    Cleanup(Seq<char>),
    Done,
    Failed(Seq<char>),
}

impl View for ImportStep {
    type V = ImportView;

    open spec fn view(&self) -> ImportView {
        match self {
            ImportStep::Load(command) => ImportView::Load(command@),
            ImportStep::Cleanup(command) => ImportView::Cleanup(command@),
            ImportStep::Done => ImportView::Done,
            ImportStep::Failed(message) => ImportView::Failed(message@),
        }
    }
}

/// The first step of loading an image: the archive is loaded.
pub fn import_image(archive: &str) -> (r: ImportStep)
    ensures
        r@ == ImportView::Load("docker load -i '"@ + archive@ + "'"@),
{
    let mut out = "docker load -i '".to_owned();
    out.push_str(archive);
    out.push_str("'");
    ImportStep::Load(out)
}

/// The step after one that was run on `host` with the given result: the archive is removed once it
/// is loaded, and a failure of either ends the work.
pub fn import_next(step: ImportStep, archive: &str, host: &str, status: ExitStatus) -> (r:
    ImportStep)
    ensures
        r@ == match (step, status) {
            (ImportStep::Load(_), ExitStatus::Success(_)) => ImportView::Cleanup(
                "rm -f '"@ + archive@ + "'"@,
            ),
            (ImportStep::Load(_), ExitStatus::Failed(err)) => ImportView::Failed(
                failed_on_host("load image"@, host@, err@),
            ),
            (ImportStep::Cleanup(_), ExitStatus::Success(_)) => ImportView::Done,
            (ImportStep::Cleanup(_), ExitStatus::Failed(err)) => ImportView::Failed(
                failed_on_host("cleanup archive"@, host@, err@),
            ),
            (other, _) => other@,
        },
{
    match (step, status) {
        (ImportStep::Load(_), ExitStatus::Success(_)) => {
            let mut out = "rm -f '".to_owned();
            out.push_str(archive);
            out.push_str("'");
            ImportStep::Cleanup(out)
        },
        (ImportStep::Load(_), ExitStatus::Failed(err)) => ImportStep::Failed(
            explain_failure("load image", host, err.as_str()),
        ),
        (ImportStep::Cleanup(_), ExitStatus::Success(_)) => ImportStep::Done,
        (ImportStep::Cleanup(_), ExitStatus::Failed(err)) => ImportStep::Failed(
            explain_failure("cleanup archive", host, err.as_str()),
        ),
        (other, _) => other,
    }
}

/// The command that makes the directory for the configurations of the peers.
pub fn config_root_command() -> (r: &'static str)
    ensures
        r@ == "mkdir -p ~/peer-config"@,
{
    "mkdir -p ~/peer-config"
}

/// Judges how making the directory for the configurations of the peers went.
pub fn check_config_root(host: &str, status: ExitStatus) -> (r: Result<(), String>)
    ensures
        match status {
            ExitStatus::Success(_) => r is Ok,
            ExitStatus::Failed(err) => r matches Err(message) && message@ == failed_on_host(
                "create ~/peer-config"@,
                host@,
                err@,
            ),
        },
{
    match status {
        ExitStatus::Success(_) => Ok(()),
        ExitStatus::Failed(err) => Err(explain_failure("create ~/peer-config", host, err.as_str())),
    }
}

/// Archives lie in the directory for temporary files, and two images share one only where their names
/// are the same once they are sanitized.
pub proof fn archives_are_told_apart(image: Seq<char>, other: Seq<char>)
    ensures
        archive_path(image).take(14) == "/tmp/tm-image-"@,
        archive_path(image).skip(14) == sanitized(image) + ".tar.gz"@,
        archive_path(image) == archive_path(other) <==> sanitized(image) == sanitized(other),
{
    reveal_strlit("/tmp/tm-image-");
    reveal_strlit(".tar.gz");
    assert(archive_path(image).take(14) =~= "/tmp/tm-image-"@);
    assert(archive_path(image).skip(14) =~= sanitized(image) + ".tar.gz"@);
    assert(archive_path(other).skip(14) =~= sanitized(other) + ".tar.gz"@);
    let a = archive_path(image);
    let b = archive_path(other);
    assert(a.subrange(14, a.len() - 7) =~= sanitized(image));
    assert(b.subrange(14, b.len() - 7) =~= sanitized(other));
}

/// A host needs an image unless it has the very one that is here, whatever white space its ID was
/// written with.
pub proof fn hosts_with_the_image_need_none(
    exit_code: i32,
    before: Seq<char>,
    remote_id: Seq<char>,
    after: Seq<char>,
    local_id: Seq<char>,
)
    requires
        forall|k: int| 0 <= k < before.len() ==> text::is_white_space(#[trigger] before[k]),
        forall|k: int| 0 <= k < after.len() ==> text::is_white_space(#[trigger] after[k]),
        remote_id.len() > 0 ==> !text::is_white_space(remote_id[0]) && !text::is_white_space(
            remote_id.last(),
        ),
    ensures
        needs_image(0, before + remote_id + after, local_id) <==> remote_id != local_id,
        exit_code != 0 ==> needs_image(exit_code, before + remote_id + after, local_id),
{
    text::trimming_finds_the_text(before, remote_id, after);
}

/// What is logged of an image on a host names both, and where the two IDs differ it gives both.
pub proof fn image_notes_name_image_and_host(
    host: Seq<char>,
    image: Seq<char>,
    exit_code: i32,
    output: Seq<char>,
    local_id: Seq<char>,
)
    ensures
        ({
            let note = remote_image_note(host, image, exit_code, output, local_id);
            &&& text::occurs(image, note)
            &&& text::occurs(host, note)
            &&& exit_code == 0 ==> text::occurs(local_id, note) || !needs_image(
                exit_code,
                output,
                local_id,
            )
            &&& exit_code == 0 && needs_image(exit_code, output, local_id) ==> text::occurs(
                text::trimmed(output),
                note,
            )
        }),
{
    let note = remote_image_note(host, image, exit_code, output, local_id);
    let id = text::trimmed(output);
    let start = "image '"@;
    if exit_code != 0 {
        text::parts_occur(start, image, "' missing on "@ + host);
        assert(start + image + ("' missing on "@ + host) =~= note);
        text::parts_occur(start + image + "' missing on "@, host, Seq::empty());
        assert(start + image + "' missing on "@ + host + Seq::<char>::empty() =~= note);
    } else if id == local_id {
        let tail = "' present on "@ + host + " (ID matches)"@;
        text::parts_occur(start, image, tail);
        assert(start + image + tail =~= note);
        text::parts_occur(start + image + "' present on "@, host, " (ID matches)"@);
    } else {
        let tail = " (local="@ + local_id + ", remote="@ + id + ")"@;
        text::parts_occur(start, image, "' stale on "@ + host + tail);
        assert(start + image + ("' stale on "@ + host + tail) =~= note);
        text::parts_occur(start + image + "' stale on "@, host, tail);
        assert(start + image + "' stale on "@ + host + tail =~= note);
        text::parts_occur(
            start + image + "' stale on "@ + host + " (local="@,
            local_id,
            ", remote="@ + id + ")"@,
        );
        assert(start + image + "' stale on "@ + host + " (local="@ + local_id + (", remote="@ + id
            + ")"@) =~= note);
        text::parts_occur(
            start + image + "' stale on "@ + host + " (local="@ + local_id + ", remote="@,
            id,
            ")"@,
        );
    }
}

/// What is told of a failure says what failed, where, and why.
pub proof fn failures_are_told_whole(what: Seq<char>, host: Seq<char>, err: Seq<char>)
    ensures
        text::occurs(what, failed_on_host(what, host, err)),
        text::occurs(host, failed_on_host(what, host, err)),
        text::occurs(err, failed_on_host(what, host, err)),
{
    let whole = failed_on_host(what, host, err);
    text::parts_occur("failed to "@, what, " on "@ + host + ": "@ + err);
    assert("failed to "@ + what + (" on "@ + host + ": "@ + err) =~= whole);
    text::parts_occur("failed to "@ + what + " on "@, host, ": "@ + err);
    assert("failed to "@ + what + " on "@ + host + (": "@ + err) =~= whole);
    text::parts_occur("failed to "@ + what + " on "@ + host + ": "@, err, Seq::empty());
    assert("failed to "@ + what + " on "@ + host + ": "@ + err + Seq::<char>::empty() =~= whole);
}

} // verus!
