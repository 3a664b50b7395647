//! Names and command lines for fetching a track and turning it into an mp3
//! file.

use vstd::prelude::*;
use vstd::string::*;
use std::path::{Path, PathBuf};

verus! {

/// A program and the arguments it is started with.
pub struct CommandLine {
    pub program: String,
    pub arguments: Vec<String>,
}

/// The texts of `arguments`, in order.
pub open spec fn texts(arguments: Seq<String>) -> Seq<Seq<char>> {
    arguments.map_values(|argument: String| argument@)
}

/// The position of the last `c` in `s`, or -1 where there is none.
pub open spec fn last_index_of(s: Seq<char>, c: char) -> int
    decreases s.len(),
{
    if s.len() == 0 {
        -1
    } else if s.last() == c {
        s.len() - 1
    } else {
        last_index_of(s.drop_last(), c)
    }
}

/// What follows the last `/` of `path`: the whole of it where it has none.
pub open spec fn file_name(path: Seq<char>) -> Seq<char> {
    path.skip(last_index_of(path, '/') + 1)
}

/// Whether the file name of `path` has an extension, that is, a dot.
pub open spec fn has_extension(path: Seq<char>) -> bool {
    last_index_of(file_name(path), '.') >= 0
}

/// The test that a character is not `c`.
pub open spec fn is_not(c: char) -> spec_fn(char) -> bool {
    |x: char| x != c
}

/// `s` without any `c`.
pub open spec fn without(s: Seq<char>, c: char) -> Seq<char> {
    s.filter(is_not(c))
}

/// The file name of `path` up to its last dot, without the dots in it.
pub open spec fn stem_of(path: Seq<char>) -> Seq<char> {
    without(file_name(path).take(last_index_of(file_name(path), '.')), '.')
}

/// `s` without each `./` that is met when reading it from the left.
pub open spec fn without_dot_slash(s: Seq<char>) -> Seq<char>
    decreases s.len(),
{
    if s.len() == 0 {
        s
    } else if s.len() >= 2 && s[0] == '.' && s[1] == '/' {
        without_dot_slash(s.skip(2))
    } else {
        seq![s[0]] + without_dot_slash(s.skip(1))
    }
}

/// `s` made fit for a file name: without blanks, then without `./`, then
/// without `&`.
pub open spec fn slug_of(s: Seq<char>) -> Seq<char> {
    without(without_dot_slash(without(s, ' ')), '&')
}

/// `last_index_of` finds a `c` after which no other follows, where there
/// is one at all.
pub proof fn lemma_last_index_of(s: Seq<char>, c: char)
    ensures
        -1 <= last_index_of(s, c) < s.len(),
        last_index_of(s, c) >= 0 ==> s[last_index_of(s, c)] == c,
        forall|i: int| last_index_of(s, c) < i < s.len() ==> s[i] != c,
    decreases s.len(),
{
    if s.len() > 0 && s.last() != c {
        lemma_last_index_of(s.drop_last(), c);
        assert forall|i: int| last_index_of(s, c) < i < s.len() implies s[i] != c by {
            if i < s.len() - 1 {
                assert(s.drop_last()[i] == s[i]);
            }
        }
    }
}

/// Removing each `./` brings in no character that was not there.
pub proof fn lemma_without_dot_slash_keeps(s: Seq<char>, c: char)
    requires
        !s.contains(c),
    ensures
        !without_dot_slash(s).contains(c),
    decreases s.len(),
{
    if s.len() > 0 {
        let rest = if s.len() >= 2 && s[0] == '.' && s[1] == '/' {
            s.skip(2)
        } else {
            s.skip(1)
        };
        assert forall|i: int| 0 <= i < rest.len() implies rest[i] != c by {
            assert(s.contains(rest[i]));
        }
        lemma_without_dot_slash_keeps(rest, c);
        assert(s.contains(s[0]));
        let clean = without_dot_slash(s);
        assert forall|i: int| 0 <= i < clean.len() implies clean[i] != c by {
            if s.len() >= 2 && s[0] == '.' && s[1] == '/' {
                assert(without_dot_slash(rest).contains(clean[i]));
            } else if i > 0 {
                assert(clean[i] == without_dot_slash(rest)[i - 1]);
                assert(without_dot_slash(rest).contains(clean[i]));
            }
        }
    }
}

/// What is left after removing `c` holds no `c`, and nothing that was not
/// there.
pub proof fn lemma_without(s: Seq<char>, c: char)
    ensures
        !without(s, c).contains(c),
        forall|x: char| #[trigger] without(s, c).contains(x) ==> s.contains(x),
{
    assert forall|x: char| #[trigger] without(s, c).contains(x) implies s.contains(x) && x != c by {
        s.lemma_filter_contains_rev(is_not(c), x);
    }
}

/// A slug holds neither a blank nor an `&`.
pub proof fn lemma_slug_is_clean(s: Seq<char>)
    ensures
        !slug_of(s).contains('&'),
        !slug_of(s).contains(' '),
{
    lemma_without(s, ' ');
    lemma_without_dot_slash_keeps(without(s, ' '), ' ');
    lemma_without(without_dot_slash(without(s, ' ')), '&');
}

/// Finds the last `c` in `text`.
fn find_last(text: &str, c: char) -> (found: Option<usize>)
    ensures
        match found {
            Some(index) => index == last_index_of(text@, c),
            None => last_index_of(text@, c) == -1,
        },
{
    let len = text.unicode_len();
    let mut found: Option<usize> = None;
    let mut at: usize = 0;
    assert(text@.take(0) =~= Seq::<char>::empty());
    while at < len
        invariant
            len == text@.len(),
            at <= len,
            match found {
                Some(index) => index == last_index_of(text@.take(at as int), c),
                None => last_index_of(text@.take(at as int), c) == -1,
            },
        decreases len - at,
    {
        assert(text@.take(at + 1).drop_last() =~= text@.take(at as int));
        if text.get_char(at) == c {
            found = Some(at);
        }
        at += 1;
    }
    assert(text@.take(len as int) =~= text@);
    found
}

/// Copies `text` without any `c`.
fn remove_char(text: &str, c: char) -> (clean: String)
    ensures
        clean@ == without(text@, c),
{
    let len = text.unicode_len();
    let mut clean = String::new();
    let mut at: usize = 0;
    let ghost keep = is_not(c);
    proof {
        reveal(Seq::filter);
        assert(text@.take(0) =~= Seq::<char>::empty());
    }
    while at < len
        invariant
            len == text@.len(),
            at <= len,
            keep == is_not(c),
            clean@ == text@.take(at as int).filter(keep),
        decreases len - at,
    {
        proof {
            reveal(Seq::filter);
            assert(text@.take(at + 1).drop_last() =~= text@.take(at as int));
            assert(text@.subrange(at as int, at + 1) =~= seq![text@[at as int]]);
        }
        if text.get_char(at) != c {
            clean.append(text.substring_char(at, at + 1));
            assert(clean@ =~= text@.take(at as int).filter(keep).push(text@[at as int]));
        }
        at += 1;
    }
    assert(text@.take(len as int) =~= text@);
    clean
}

/// Copies `text` without each `./` that is met when reading it from the
/// left.
fn remove_dot_slash(text: &str) -> (clean: String)
    ensures
        clean@ == without_dot_slash(text@),
{
    let len = text.unicode_len();
    let mut clean = String::new();
    let mut at: usize = 0;
    assert(text@.skip(0) =~= text@);
    while at < len
        invariant
            len == text@.len(),
            at <= len,
            clean@ + without_dot_slash(text@.skip(at as int)) == without_dot_slash(text@),
        decreases len - at,
    {
        let ghost rest = text@.skip(at as int);
        if at + 1 < len && text.get_char(at) == '.' && text.get_char(at + 1) == '/' {
            assert(rest.skip(2) =~= text@.skip(at + 2));
            at += 2;
        } else {
            proof {
                assert(rest.skip(1) =~= text@.skip(at + 1));
                assert(text@.subrange(at as int, at + 1) =~= seq![rest[0]]);
                assert((clean@ + seq![rest[0]]) + without_dot_slash(rest.skip(1)) =~= clean@ + (
                seq![rest[0]] + without_dot_slash(rest.skip(1))));
            }
            clean.append(text.substring_char(at, at + 1));
            at += 1;
        }
    }
    assert(clean@ + Seq::<char>::empty() =~= clean@);
    clean
}

/// Makes `text` fit for a file name: removes the blanks, then each `./`,
/// then each `&`.
pub fn slugify(text: &str) -> (slug: String)
    ensures
        slug@ == slug_of(text@),
        !slug@.contains(' '),
        !slug@.contains('&'),
{
    let no_blanks = remove_char(text, ' ');
    let no_dot_slash = remove_dot_slash(no_blanks.as_str());
    proof {
        lemma_slug_is_clean(text@);
    }
    remove_char(no_dot_slash.as_str(), '&')
}

/// Whether the file name of `mp4_path` has an extension.
pub fn names_extension(mp4_path: &str) -> (found: bool)
    ensures
        found == has_extension(mp4_path@),
{
    let len = mp4_path.unicode_len();
    proof {
        lemma_last_index_of(mp4_path@, '/');
    }
    let start: usize = match find_last(mp4_path, '/') {
        Some(index) => index + 1,
        None => 0,
    };
    let name = mp4_path.substring_char(start, len);
    assert(name@ =~= file_name(mp4_path@));
    find_last(name, '.').is_some()
}

/// Takes the file name of `mp4_path` without its extension and without
/// dots.
pub fn file_stem(mp4_path: &str) -> (stem: String)
    requires
        has_extension(mp4_path@),
    ensures
        stem@ == stem_of(mp4_path@),
{
    let len = mp4_path.unicode_len();
    proof {
        lemma_last_index_of(mp4_path@, '/');
    }
    let start: usize = match find_last(mp4_path, '/') {
        Some(index) => index + 1,
        None => 0,
    };
    let name = mp4_path.substring_char(start, len);
    assert(name@ =~= file_name(mp4_path@));
    proof {
        lemma_last_index_of(name@, '.');
    }
    let end: usize = match find_last(name, '.') {
        Some(index) => index,
        None => 0,
    };
    let base = name.substring_char(0, end);
    assert(base@ =~= name@.take(end as int));
    remove_char(base, '.')
}

/// Puts `name` below the directory `dir`.
///
/// Calls `Path::join` of std. Nothing is claimed of the result: how two
/// paths are joined differs from one platform to the next.
#[verifier::external_body]
fn join_path(dir: &str, name: &str) -> (path: String) {
    Path::new(dir).join(name).to_string_lossy().into_owned()
}

/// Gives the file that `path` names the extension `extension`.
///
/// Calls `PathBuf::set_extension` of std, which refuses an extension that
/// holds a path separator. Nothing is claimed of the result, for the same
/// reason as in `join_path`.
#[verifier::external_body]
fn replace_extension(path: &str, extension: &str) -> (result: String)
    requires
        !extension@.contains('/'),
        !extension@.contains('\\'),
{
    let mut path = PathBuf::from(path);
    path.set_extension(extension);
    path.to_string_lossy().into_owned()
}

/// Names the mp3 file that the download at `mp4_path` is turned into: a
/// file in `tmp_dir`, called like the download without its extension and
/// dots, with the extension `mp3`, the whole path made fit by [`slugify`].
///
/// The platform joins the directory and the name, so the result is the
/// slug of a path that is not known here.
pub fn create_mp3_path(tmp_dir: &str, mp4_path: &String) -> (mp3_path: String)
    requires
        has_extension(mp4_path@),
    ensures
        exists|path: Seq<char>| mp3_path@ == #[trigger] slug_of(path),
        !mp3_path@.contains(' '),
        !mp3_path@.contains('&'),
{
    let stem = file_stem(mp4_path.as_str());
    let joined = join_path(tmp_dir, stem.as_str());
    proof {
        reveal_strlit("mp3");
    }
    let named = replace_extension(joined.as_str(), "mp3");
    slugify(named.as_str())
}

/// The command that downloads `url` as an mp4 file to `output_path`.
pub fn create_youtube_dl_command(output_path: &String, url: &String) -> (command: CommandLine)
    ensures
        command.program@ == "youtube-dl"@,
        texts(command.arguments@) == seq!["-o"@, output_path@, "--format"@, "mp4"@, url@],
{
    let mut arguments: Vec<String> = Vec::new();
    arguments.push("-o".to_owned());
    arguments.push(output_path.clone());
    arguments.push("--format".to_owned());
    arguments.push("mp4".to_owned());
    arguments.push(url.clone());
    assert(texts(arguments@) =~= seq!["-o"@, output_path@, "--format"@, "mp4"@, url@]);
    CommandLine { program: "youtube-dl".to_owned(), arguments }
}

/// The command that converts the file at `input_path` into an mp3 file at
/// `output_path`, sound only, at 320 kbit/s.
pub fn create_ffmpeg_command(input_path: &String, output_path: &String) -> (command: CommandLine)
    ensures
        command.program@ == "ffmpeg"@,
        texts(command.arguments@) == seq![
            "-i"@,
            input_path@,
            "-b:a"@,
            "320K"@,
            "-vn"@,
            output_path@,
        ],
{
    let mut arguments: Vec<String> = Vec::new();
    arguments.push("-i".to_owned());
    arguments.push(input_path.clone());
    arguments.push("-b:a".to_owned());
    arguments.push("320K".to_owned());
    arguments.push("-vn".to_owned());
    arguments.push(output_path.clone());
    assert(texts(arguments@) =~= seq!["-i"@, input_path@, "-b:a"@, "320K"@, "-vn"@, output_path@]);
    CommandLine { program: "ffmpeg".to_owned(), arguments }
}

} // verus!
