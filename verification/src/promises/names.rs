//! What the files are called that a run writes.

use vstd::prelude::*;

use crate::execute;
use crate::model::Container;
use crate::path;
use crate::plan;
use crate::text;

verus! {

/// Whether `s` is `word`, with any of its letters in upper case.
pub open spec fn cased(s: Seq<char>, word: Seq<char>) -> bool {
    &&& s.len() == word.len()
    &&& forall|i: int|
        0 <= i < s.len() ==> #[trigger] s[i] == word[i] || ('a' <= word[i] <= 'z' && s[i] as int
            + 32 == word[i] as int)
}

/// The extension of a file of each container.
pub open spec fn written_extension(container: Container) -> Seq<char> {
    match container {
        Container::Mkv => "mkv"@,
        Container::Mp4 => "mp4"@,
        Container::Mov => "mov"@,
        Container::WebM => "webm"@,
        Container::MpegPs => "mpg"@,
        Container::MpegTs => "ts"@,
        Container::Asf => "wmv"@,
        Container::Avi => "avi"@,
        Container::Flv => "flv"@,
        Container::Unknown(_) => "bin"@,
    }
}

/// A spelling of a lower-case word and the word are the same without case.
pub proof fn lemma_cased(s: Seq<char>, word: Seq<char>)
    requires
        forall|i: int| 0 <= i < word.len() ==> !('A' <= #[trigger] word[i] <= 'Z'),
    ensures
        cased(s, word) <==> text::ascii_lowercase(s) == word,
{
    let lowered = text::ascii_lowercase(s);
    if cased(s, word) {
        assert forall|i: int| 0 <= i < s.len() implies lowered[i] == word[i] by {
            assert(s[i] == word[i] || ('a' <= word[i] <= 'z' && s[i] as int + 32 == word[i] as int));
            assert(!('A' <= word[i] <= 'Z'));
        }
        assert(lowered =~= word);
    }
    if lowered == word {
        assert forall|i: int| 0 <= i < s.len() implies #[trigger] s[i] == word[i] || ('a' <= word[i]
            <= 'z' && s[i] as int + 32 == word[i] as int) by {
            assert(lowered[i] == word[i]);
            assert(lowered[i] == text::lower(s[i]));
        }
    }
}

/// The extensions that media files commonly have.
pub open spec fn is_media_word(word: Seq<char>) -> bool {
    ||| word == "mkv"@
    ||| word == "mp4"@
    ||| word == "m4v"@
    ||| word == "mov"@
    ||| word == "webm"@
    ||| word == "avi"@
    ||| word == "wmv"@
    ||| word == "asf"@
    ||| word == "flv"@
    ||| word == "f4v"@
    ||| word == "mpg"@
    ||| word == "mpeg"@
    ||| word == "m2v"@
    ||| word == "vob"@
    ||| word == "ts"@
    ||| word == "m2ts"@
    ||| word == "mts"@
    ||| word == "ogv"@
    ||| word == "ogm"@
    ||| word == "3gp"@
    ||| word == "3g2"@
    ||| word == "rm"@
    ||| word == "rmvb"@
    ||| word == "divx"@
}

/// The words are plain: no dots, no slashes, no capitals.
pub proof fn lemma_media_word(word: Seq<char>)
    requires
        is_media_word(word),
    ensures
        2 <= word.len() <= 4,
        forall|i: int|
            0 <= i < word.len() ==> #[trigger] word[i] != '.' && word[i] != '/'
                && !('A' <= word[i] <= 'Z'),
{
    reveal_strlit("mkv");
    reveal_strlit("mp4");
    reveal_strlit("m4v");
    reveal_strlit("mov");
    reveal_strlit("webm");
    reveal_strlit("avi");
    reveal_strlit("wmv");
    reveal_strlit("asf");
    reveal_strlit("flv");
    reveal_strlit("f4v");
    reveal_strlit("mpg");
    reveal_strlit("mpeg");
    reveal_strlit("m2v");
    reveal_strlit("vob");
    reveal_strlit("ts");
    reveal_strlit("m2ts");
    reveal_strlit("mts");
    reveal_strlit("ogv");
    reveal_strlit("ogm");
    reveal_strlit("3gp");
    reveal_strlit("3g2");
    reveal_strlit("rm");
    reveal_strlit("rmvb");
    reveal_strlit("divx");
}

/// A spelling of a plain word is plain.
proof fn lemma_spelled(ext: Seq<char>, word: Seq<char>)
    requires
        is_media_word(word),
        cased(ext, word),
    ensures
        path::is_plain_extension(ext),
        text::ascii_lowercase(ext) == word,
        plan::media_extension(ext),
{
    lemma_media_word(word);
    lemma_cased(ext, word);
    assert forall|i: int| 0 <= i < ext.len() implies ext[i] != '/' && ext[i] != '.' by {
        assert(ext[i] == word[i] || ('a' <= word[i] <= 'z' && ext[i] as int + 32 == word[i] as int));
        assert(word[i] != '.' && word[i] != '/');
    }
}

/// An upgraded file keeps the name of its input, with the container's
/// extension in place of any common media extension, however it was spelled.
/// The original goes aside under the same stem and with its own extension.
/// Both stay in the directory of the input.
pub proof fn law_upgraded_name(
    input: Seq<char>,
    stem: Seq<char>,
    ext: Seq<char>,
    word: Seq<char>,
    container: Container,
)
    requires
        path::file_name(input) == Some(stem + "."@ + ext),
        cased(ext, word),
        word == "mkv"@ || word == "mp4"@ || word == "m4v"@ || word == "mov"@ || word == "webm"@
            || word == "avi"@ || word == "wmv"@ || word == "asf"@ || word == "flv"@ || word ==
            "f4v"@ || word == "mpg"@ || word == "mpeg"@ || word == "m2v"@ || word == "vob"@ || word
            == "ts"@ || word == "m2ts"@ || word == "mts"@ || word == "ogv"@ || word == "ogm"@ ||
            word == "3gp"@ || word == "3g2"@ || word == "rm"@ || word == "rmvb"@ || word == "divx"@,
    ensures
        path::file_name(plan::upgrade_output(input, container)) == Some(
            stem + "."@ + written_extension(container),
        ),
        path::file_name(plan::upgrade_backup(input, container)) == Some(
            stem + ".vimprover-orig."@ + ext,
        ),
        path::parent(plan::upgrade_output(input, container)) == path::parent(input),
        path::parent(plan::upgrade_backup(input, container)) == path::parent(input),
{
    lemma_spelled(ext, word);
    lemma_stem(stem, ext);
    plan::law_upgrade_paths(input, container);
}

/// The name of a file that lies in the current directory.
pub proof fn law_upgraded_bare_name(
    stem: Seq<char>,
    ext: Seq<char>,
    word: Seq<char>,
    container: Container,
)
    requires
        forall|i: int| 0 <= i < stem.len() ==> stem[i] != '/',
        cased(ext, word),
        word == "mkv"@ || word == "mp4"@ || word == "m4v"@ || word == "mov"@ || word == "webm"@
            || word == "avi"@ || word == "wmv"@ || word == "asf"@ || word == "flv"@ || word ==
            "f4v"@ || word == "mpg"@ || word == "mpeg"@ || word == "m2v"@ || word == "vob"@ || word
            == "ts"@ || word == "m2ts"@ || word == "mts"@ || word == "ogv"@ || word == "ogm"@ ||
            word == "3gp"@ || word == "3g2"@ || word == "rm"@ || word == "rmvb"@ || word == "divx"@,
    ensures
        path::file_name(plan::upgrade_output(stem + "."@ + ext, container)) == Some(
            stem + "."@ + written_extension(container),
        ),
        plan::upgrade_output(stem + "."@ + ext, container) == stem + "."@ + written_extension(
            container,
        ),
        plan::upgrade_backup(stem + "."@ + ext, container) == stem + ".vimprover-orig."@ + ext,
{
    let input = stem + "."@ + ext;
    reveal_strlit(".");
    lemma_spelled(ext, word);
    lemma_media_word(word);
    assert forall|i: int| 0 <= i < input.len() implies input[i] != '/' by {
        if i > stem.len() {
            assert(input[i] == ext[i - stem.len() - 1]);
        }
    }
    assert(input.last() == ext.last());
    assert(ext.last() == ext[ext.len() - 1]);
    assert(path::strip_tail(input) == input);
    text::lemma_last_index(input, '/');
    assert(path::name_start(input) == 0);
    assert(input.skip(0) =~= input);
    assert(input.len() > 2);
    law_upgraded_name(input, stem, ext, word, container);
    assert(input.take(0) =~= Seq::<char>::empty());
    assert(path::strip_tail(Seq::<char>::empty()) =~= Seq::<char>::empty());
    let output = stem + "."@ + written_extension(container);
    let backup = stem + ".vimprover-orig."@ + ext;
    lemma_stem(stem, ext);
    assert(plan::directory_of(input).len() == 0);
    assert(path::join(plan::directory_of(input), output) =~= output);
    assert(path::join(plan::directory_of(input), backup) =~= backup);
}

/// Where the media extension of a name starts.
proof fn lemma_stem(stem: Seq<char>, ext: Seq<char>)
    requires
        path::is_plain_extension(ext),
    ensures
        ({
            let name = stem + "."@ + ext;
            &&& text::last_index(name, '.') == stem.len()
            &&& name.skip(stem.len() + 1int) == ext
            &&& name.take(stem.len() as int) == stem
        }),
{
    let name = stem + "."@ + ext;
    reveal_strlit(".");
    text::lemma_last_index(name, '.');
    assert(name[stem.len() as int] == '.');
    let last = text::last_index(name, '.');
    if last > stem.len() {
        assert(name[last] == ext[last - stem.len() - 1]);
    }
    assert(name.skip(stem.len() + 1int) =~= ext);
    assert(name.take(stem.len() as int) =~= stem);
}

/// A name that ends in no common media extension is kept whole, dots and all:
/// the container's extension is put behind it.
pub proof fn law_other_names_are_kept(input: Seq<char>, container: Container)
    requires
        path::file_name(input) is Some,
        forall|stem: Seq<char>, ext: Seq<char>, word: Seq<char>|
            #![trigger cased(ext, word), stem + "."@]
            path::file_name(input) == Some(stem + "."@ + ext) && is_media_word(word) ==> !cased(
                ext,
                word,
            ),
    ensures
        path::file_name(plan::upgrade_output(input, container)) == Some(
            path::file_name(input)->0 + "."@ + written_extension(container),
        ),
        path::file_name(plan::upgrade_backup(input, container)) == Some(
            path::file_name(input)->0 + ".vimprover-orig."@ + written_extension(container),
        ),
{
    let name = path::file_name(input)->0;
    let dot = text::last_index(name, '.');
    plan::law_upgrade_paths(input, container);
    text::lemma_last_index(name, '.');
    if dot >= 0 {
        let stem = name.take(dot);
        let ext = name.skip(dot + 1);
        reveal_strlit(".");
        assert(name =~= stem + "."@ + ext);
        if plan::media_extension(ext) {
            let word = text::ascii_lowercase(ext);
            assert(is_media_word(word));
            lemma_media_word(word);
            lemma_cased(ext, word);
            assert(cased(ext, word));
        }
    }
    assert(name.take(name.len() as int) =~= name);
}

/// The user's output name is kept whole. Where it ends in an extension of a
/// container that is written, however it is spelled, it is the output; else
/// the container's extension is put behind it.
pub proof fn law_output_name(
    user_output: Seq<char>,
    stem: Seq<char>,
    ext: Seq<char>,
    container: Container,
)
    requires
        path::file_name(user_output) == Some(stem + "."@ + ext),
        forall|i: int| 0 <= i < ext.len() ==> ext[i] != '.',
    ensures
        stem.len() > 0 && (cased(ext, "mkv"@) || cased(ext, "mp4"@) || cased(ext, "m4v"@) || cased(
            ext,
            "mov"@,
        ) || cased(ext, "webm"@)) ==> plan::output_path(user_output, container) == user_output,
        !(stem.len() > 0 && (cased(ext, "mkv"@) || cased(ext, "mp4"@) || cased(ext, "m4v"@)
            || cased(ext, "mov"@) || cased(ext, "webm"@))) ==> plan::output_path(
            user_output,
            container,
        ) == user_output + "."@ + written_extension(container),
{
    lemma_extension(user_output, stem, ext);
    lemma_media_word("mkv"@);
    lemma_media_word("mp4"@);
    lemma_media_word("m4v"@);
    lemma_media_word("mov"@);
    lemma_media_word("webm"@);
    lemma_cased(ext, "mkv"@);
    lemma_cased(ext, "mp4"@);
    lemma_cased(ext, "m4v"@);
    lemma_cased(ext, "mov"@);
    lemma_cased(ext, "webm"@);
}

/// A name without a dot gets the container's extension.
pub proof fn law_plain_output_name(user_output: Seq<char>, container: Container)
    requires
        forall|i: int| 0 <= i < user_output.len() ==> user_output[i] != '.',
    ensures
        plan::output_path(user_output, container) == user_output + "."@ + written_extension(
            container,
        ),
        plan::container_by_extension(user_output) is None,
{
    let t = path::strip_tail(user_output);
    text::lemma_last_index(t, '/');
    if let Some(name) = path::file_name(user_output) {
        text::lemma_last_index(name, '.');
        assert forall|i: int| 0 <= i < name.len() implies name[i] != '.' by {
            assert(name[i] == t[path::name_start(t) + i]);
            lemma_strip_tail_is_a_prefix(user_output);
            assert(t[path::name_start(t) + i] == user_output[path::name_start(t) + i]);
        }
    }
}

/// Only the end of a path is stripped.
proof fn lemma_strip_tail_is_a_prefix(p: Seq<char>)
    ensures
        path::strip_tail(p).len() <= p.len(),
        path::strip_tail(p) == p.take(path::strip_tail(p).len() as int),
    decreases p.len(),
{
    if path::strip_tail(p) != p {
        let q = p.drop_last();
        lemma_strip_tail_is_a_prefix(q);
        assert(path::strip_tail(p) == path::strip_tail(q));
        assert(q.take(path::strip_tail(q).len() as int) =~= p.take(
            path::strip_tail(q).len() as int,
        ));
    } else {
        assert(p.take(p.len() as int) =~= p);
    }
}

/// The extension of a path whose name is known.
pub proof fn lemma_extension(p: Seq<char>, stem: Seq<char>, ext: Seq<char>)
    requires
        path::file_name(p) == Some(stem + "."@ + ext),
        forall|i: int| 0 <= i < ext.len() ==> ext[i] != '.',
    ensures
        stem.len() > 0 ==> path::extension(p) == Some(ext) && path::file_stem(p) == Some(stem),
        stem.len() == 0 ==> path::extension(p) is None && path::file_stem(p) == Some(
            stem + "."@ + ext,
        ),
{
    reveal_strlit(".");
    assert("."@ =~= seq!['.']);
    path::lemma_named_extension(stem, ext);
}

/// The extension of the output decides the container where it is Matroska's
/// or MP4's, however it is spelled, and leaves it open otherwise. A name that
/// begins with its only dot has no extension.
pub proof fn law_container_of_output(output: Seq<char>, stem: Seq<char>, ext: Seq<char>)
    requires
        path::file_name(output) == Some(stem + "."@ + ext),
        forall|i: int| 0 <= i < ext.len() ==> ext[i] != '.',
    ensures
        plan::container_by_extension(output) == (if stem.len() == 0 {
            None
        } else if cased(ext, "mkv"@) {
            Some(Container::Mkv)
        } else if cased(ext, "mp4"@) || cased(ext, "m4v"@) {
            Some(Container::Mp4)
        } else {
            None
        }),
{
    lemma_extension(output, stem, ext);
    lemma_media_word("mkv"@);
    lemma_media_word("mp4"@);
    lemma_media_word("m4v"@);
    lemma_cased(ext, "mkv"@);
    lemma_cased(ext, "mp4"@);
    lemma_cased(ext, "m4v"@);
}

/// While it is being written a file is called `<stem>.partial.<ext>`, in the
/// directory of the output.
pub proof fn law_partial_name(output: Seq<char>, stem: Seq<char>, ext: Seq<char>)
    requires
        path::file_name(output) == Some(stem + "."@ + ext),
        stem.len() > 0,
        forall|i: int| 0 <= i < ext.len() ==> ext[i] != '.',
    ensures
        path::file_name(execute::partial_path(output)) == Some(stem + ".partial."@ + ext),
        path::parent(execute::partial_path(output)) == path::parent(output),
{
    lemma_extension(output, stem, ext);
    execute::law_partial_is_a_sibling(output);
    reveal_strlit(".partial");
    reveal_strlit(".partial.");
    reveal_strlit(".");
    assert(stem + ".partial"@ + "."@ + ext =~= stem + ".partial."@ + ext);
}

/// A path is its name in its parent, and a name is its stem and its extension
/// with a dot between them. The extension is behind the last dot, unless that
/// dot begins the name.
pub proof fn law_path_parts(p: Seq<char>)
    requires
        path::file_name(p) is Some,
    ensures
        path::same_path(path::join(path::parent(p)->0, path::file_name(p)->0), p),
        path::extension(p) matches Some(ext) ==> {
            &&& path::file_name(p)->0 == path::file_stem(p)->0 + "."@ + ext
            &&& path::file_stem(p)->0.len() > 0
            &&& forall|i: int| 0 <= i < ext.len() ==> ext[i] != '.'
        },
        path::extension(p) is None ==> path::file_stem(p) == path::file_name(p) && forall|i: int|
            1 <= i < path::file_name(p)->0.len() ==> path::file_name(p)->0[i] != '.',
{
    reveal_strlit(".");
    let name = path::file_name(p)->0;
    path::lemma_components_of_parent(p);
    path::lemma_file_name_is_plain(p);
    path::lemma_join(path::parent(p)->0, name);
    assert(path::components(p).last() == name);
    text::lemma_last_index(name, '.');
    let dot = text::last_index(name, '.');
    if dot > 0 {
        assert(name =~= name.take(dot) + "."@ + name.skip(dot + 1));
    }
}

/// A path that has no name, such as `..`, names no container and gets the
/// container's extension.
pub proof fn law_nameless_output(user_output: Seq<char>, container: Container)
    requires
        path::file_name(user_output) is None,
    ensures
        plan::output_path(user_output, container) == user_output + "."@ + written_extension(
            container,
        ),
        plan::container_by_extension(user_output) is None,
{
}

/// A name without an extension is followed by `.partial` while it is written.
pub proof fn law_plain_partial_name(output: Seq<char>)
    requires
        path::file_name(output) is Some,
        forall|i: int| 1 <= i < path::file_name(output)->0.len() ==> path::file_name(output)->0[i]
            != '.',
    ensures
        path::file_name(execute::partial_path(output)) == Some(
            path::file_name(output)->0 + ".partial"@,
        ),
        path::parent(execute::partial_path(output)) == path::parent(output),
{
    execute::law_partial_is_a_sibling(output);
    text::lemma_last_index(path::file_name(output)->0, '.');
}

} // verus!
