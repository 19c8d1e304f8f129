//! Textual inclusion: which files a text asks for, where they lie, and the
//! text with each file put in the place of the lines that ask for it, after
//! the same was done to that file. Reading the files is left to the caller,
//! who hands them over as pairs of path and text.

use vstd::prelude::*;
use vstd::string::StringExecFns;
use crate::source::{ParseError, ParseETView, ParseErrorView};
use crate::text::{push_char, same_text};

verus! {

/// The characters of a string, one by one.
pub fn chars_of(s: &str) -> (res: Vec<char>)
    ensures
        res@ == s@,
{
    let mut out: Vec<char> = Vec::new();
    for c in it: s.chars()
        invariant
            out@ == it.seq().take(it.index()),
    {
        out.push(c);
    }
    out
}

/// Appends the characters `from..to` of `v`.
fn push_range(out: &mut String, v: &Vec<char>, from: usize, to: usize)
    requires
        from <= to <= v@.len(),
    ensures
        final(out)@ == old(out)@ + v@.subrange(from as int, to as int),
{
    let mut i: usize = from;
    while i < to
        invariant
            from <= i <= to <= v@.len(),
            out@ == old(out)@ + v@.subrange(from as int, i as int),
        decreases to - i,
    {
        push_char(out, v[i]);
        i += 1;
        assert(out@ =~= old(out)@ + v@.subrange(from as int, i as int));
    }
    assert(v@.subrange(from as int, from as int) =~= Seq::empty());
}

/// The index of the last `c` in `s`, or -1 where there is none.
pub open spec fn last_index_of(s: Seq<char>, c: char) -> int
    decreases s.len(),
{
    if s.len() == 0 {
        -1
    } else if s.last() == c {
        s.len() - 1
    } else {
        last_index_of(s.drop_last(), c)
    }
}

/// The directory part of a path: what stands before its last `/`, or `.`
/// for a path without one.
pub open spec fn dir_of(path: Seq<char>) -> Seq<char> {
    let i = last_index_of(path, '/');
    if i < 0 {
        "."@
    } else {
        path.take(i)
    }
}

/// The file part of a path: what stands behind its last `/`, or all of a
/// path without one.
pub open spec fn file_of(path: Seq<char>) -> Seq<char> {
    let i = last_index_of(path, '/');
    if i < 0 {
        path
    } else {
        path.skip(i + 1)
    }
}

/// Where the file lies that a text in directory `dir` asks for as `incl`.
pub open spec fn path_of(dir: Seq<char>, incl: Seq<char>) -> Seq<char> {
    dir + "/"@ + dir_of(incl) + "/"@ + file_of(incl) + ".mi"@
}

/// The index of the last `/` among the characters, if there is one.
fn last_slash(v: &Vec<char>) -> (res: Option<usize>)
    ensures
        match res {
            Some(i) => i == last_index_of(v@, '/') && i < v@.len(),
            None => last_index_of(v@, '/') < 0,
        },
{
    let mut i: usize = v.len();
    assert(v@.take(i as int) =~= v@);
    while i > 0
        invariant
            i <= v@.len(),
            last_index_of(v@, '/') == last_index_of(v@.take(i as int), '/'),
        decreases i,
    {
        assert(v@.take(i as int).drop_last() =~= v@.take(i - 1));
        i -= 1;
        if v[i] == '/' {
            return Some(i);
        }
    }
    None
}

/// The directory of the file at `path`.
pub fn parent_dir(path: &str) -> (res: String)
    ensures
        res@ == dir_of(path@),
{
    let v = chars_of(path);
    match last_slash(&v) {
        Some(i) => {
            let mut out = String::new();
            push_range(&mut out, &v, 0, i);
            assert(out@ =~= v@.take(i as int));
            out
        },
        None => String::from_str("."),
    }
}

/// The path of the file that a text in directory `dir` asks for as `incl`.
pub fn include_path(dir: &str, incl: &str) -> (res: String)
    ensures
        res@ == path_of(dir@, incl@),
{
    let v = chars_of(incl);
    let mut out = String::from_str(dir);
    out.append("/");
    match last_slash(&v) {
        Some(i) => {
            assert(i < v.len());
            push_range(&mut out, &v, 0, i);
            out.append("/");
            push_range(&mut out, &v, i + 1, v.len());
            assert(v@.subrange(0, i as int) =~= v@.take(i as int));
            assert(v@.subrange(i + 1, v@.len() as int) =~= v@.skip(i + 1));
        },
        None => {
            out.append(".");
            out.append("/");
            out.append(incl);
        },
    }
    out.append(".mi");
    assert(out@ =~= path_of(dir@, incl@));
    out
}

/// The word that opens a line which asks for a file, with the blank
/// behind it.
pub open spec fn directive() -> Seq<char> {
    "#include "@
}

/// The index of the first line feed at or after `from`, or the length of
/// the text where none follows.
pub open spec fn feed_at(text: Seq<char>, from: int) -> int
    decreases text.len() - from,
{
    if from >= text.len() {
        text.len() as int
    } else if from >= 0 && text[from] == '\n' {
        from
    } else {
        feed_at(text, from + 1)
    }
}

/// The line that runs from `from` to the line feed or the end of the text
/// at `end`, without the carriage return before a line feed.
pub open spec fn line_between(text: Seq<char>, from: int, end: int) -> Seq<char> {
    if end < text.len() && from < end && text[end - 1] == '\r' {
        text.subrange(from, end - 1)
    } else {
        text.subrange(from, end)
    }
}

/// Whether `s` begins with `prefix`.
pub open spec fn starts_with(s: Seq<char>, prefix: Seq<char>) -> bool {
    prefix.len() <= s.len() && s.take(prefix.len() as int) == prefix
}

/// What the lines from offset `from` on ask for: of each line that opens
/// with the directive, the rest, in the order of the lines.
pub open spec fn directives_from(text: Seq<char>, from: int) -> Seq<Seq<char>>
    decreases text.len() - from,
{
    if from < 0 || from >= text.len() {
        Seq::empty()
    } else {
        let end = feed_at(text, from);
        let line = line_between(text, from, end);
        let rest = if from <= end < text.len() {
            directives_from(text, end + 1)
        } else {
            Seq::empty()
        };
        if starts_with(line, directive()) {
            seq![line.skip(directive().len() as int)] + rest
        } else {
            rest
        }
    }
}

/// What a text asks for, line by line.
pub open spec fn directives_of(text: Seq<char>) -> Seq<Seq<char>> {
    directives_from(text, 0)
}

/// Whether the characters `from..to` of `v` begin with `prefix`.
fn range_starts_with(v: &Vec<char>, from: usize, to: usize, prefix: &Vec<char>) -> (res: bool)
    requires
        from <= to <= v@.len(),
    ensures
        res == starts_with(v@.subrange(from as int, to as int), prefix@),
{
    if prefix.len() > to - from {
        return false;
    }
    let ghost part = v@.subrange(from as int, to as int);
    let mut i: usize = 0;
    while i < prefix.len()
        invariant
            from <= to <= v@.len(),
            i <= prefix@.len() <= to - from,
            part == v@.subrange(from as int, to as int),
            forall|j: int| 0 <= j < i ==> part[j] == prefix@[j],
        decreases prefix@.len() - i,
    {
        if v[from + i] != prefix[i] {
            assert(part.take(prefix@.len() as int)[i as int] != prefix@[i as int]);
            return false;
        }
        i += 1;
    }
    assert(part.take(prefix@.len() as int) =~= prefix@);
    true
}

/// The character sequences of a list of strings.
pub open spec fn texts_of(v: Seq<String>) -> Seq<Seq<char>> {
    Seq::new(v.len(), |i: int| v[i]@)
}

/// What `text` asks for: of each line that opens with the directive, the
/// rest, in the order of the lines.
pub fn include_directives(text: &str) -> (res: Vec<String>)
    ensures
        texts_of(res@) == directives_of(text@),
{
    let v = chars_of(text);
    let word = chars_of("#include ");
    let mut found: Vec<String> = Vec::new();
    let mut from: usize = 0;
    assert(texts_of(found@) =~= Seq::empty());
    while from < v.len()
        invariant
            from <= v@.len(),
            v@ == text@,
            word@ == directive(),
            directives_of(v@) == texts_of(found@) + directives_from(v@, from as int),
        decreases v@.len() - from,
    {
        let mut end: usize = from;
        while end < v.len() && v[end] != '\n'
            invariant
                from <= end <= v@.len(),
                feed_at(v@, from as int) == feed_at(v@, end as int),
            decreases v@.len() - end,
        {
            end += 1;
        }
        let stop: usize = if end < v.len() && from < end && v[end - 1] == '\r' {
            end - 1
        } else {
            end
        };
        let ghost line = line_between(v@, from as int, end as int);
        let ghost rest = if end < v@.len() {
            directives_from(v@, end + 1)
        } else {
            Seq::empty()
        };
        if range_starts_with(&v, from, stop, &word) {
            let mut name = String::new();
            push_range(&mut name, &v, from + word.len(), stop);
            assert(name@ =~= line.skip(directive().len() as int));
            proof {
                assert(texts_of(found@.push(name)) =~= texts_of(found@) + seq![name@]);
                assert(texts_of(found@) + (seq![name@] + rest) =~= texts_of(found@) + seq![name@]
                    + rest);
            }
            found.push(name);
        }
        if end == v.len() {
            assert(texts_of(found@) + rest =~= texts_of(found@));
            return found;
        }
        from = end + 1;
    }
    assert(directives_from(v@, from as int) =~= Seq::empty());
    assert(texts_of(found@) + directives_from(v@, from as int) =~= texts_of(found@));
    found
}

/// The text with `with` in the place of each `pattern`, the text being
/// read from the left and no character being taken for two patterns.
pub open spec fn replaced(text: Seq<char>, pattern: Seq<char>, with: Seq<char>) -> Seq<char>
    decreases text.len(),
{
    if pattern.len() == 0 || text.len() < pattern.len() {
        text
    } else if starts_with(text, pattern) {
        with + replaced(text.skip(pattern.len() as int), pattern, with)
    } else {
        seq![text[0]] + replaced(text.skip(1), pattern, with)
    }
}

/// The text with `content` in the place of each directive that asks for
/// `incl`.
pub fn splice(text: &str, incl: &str, content: &str) -> (res: String)
    ensures
        res@ == replaced(text@, directive() + incl@, content@),
{
    let v = chars_of(text);
    let mut pattern = chars_of("#include ");
    let mut name = chars_of(incl);
    pattern.append(&mut name);
    assert(pattern@ =~= directive() + incl@);
    proof {
        reveal_strlit("#include ");
    }
    let mut out = String::new();
    let mut i: usize = 0;
    assert(v@.skip(0) =~= v@);
    while i < v.len()
        invariant
            i <= v@.len(),
            pattern@.len() > 0,
            replaced(v@, pattern@, content@) == out@ + replaced(
                v@.skip(i as int),
                pattern@,
                content@,
            ),
        decreases v@.len() - i,
    {
        let ghost tail = v@.skip(i as int);
        assert(v@.subrange(i as int, v@.len() as int) =~= tail);
        if range_starts_with(&v, i, v.len(), &pattern) {
            out.append(content);
            assert(tail.skip(pattern@.len() as int) =~= v@.skip(i + pattern@.len()));
            i += pattern.len();
        } else {
            push_char(&mut out, v[i]);
            assert(tail.skip(1) =~= v@.skip(i + 1));
            i += 1;
        }
        assert(replaced(v@, pattern@, content@) =~= out@ + replaced(
            v@.skip(i as int),
            pattern@,
            content@,
        ));
    }
    assert(out@ + replaced(v@.skip(i as int), pattern@, content@) =~= out@);
    out
}

/// Files as pairs of path and text, both as sequences.
pub type Files = Seq<(Seq<char>, Seq<char>)>;

/// The paths and texts of a list of files.
pub open spec fn files_of(files: Seq<(String, String)>) -> Files {
    Seq::new(files.len(), |i: int| (files[i].0@, files[i].1@))
}

/// The text of the first of `files` that lies at `path`.
pub open spec fn text_at(files: Files, path: Seq<char>) -> Option<Seq<char>>
    decreases files.len(),
{
    if files.len() == 0 {
        None
    } else if files[0].0 == path {
        Some(files[0].1)
    } else {
        text_at(files.drop_first(), path)
    }
}

/// The failure for a file that is asked for and is not among the files.
pub open spec fn missing_file(path: Seq<char>) -> ParseErrorView {
    ParseETView::IOError("error including file: "@ + path).error().when("doing IO operation"@)
}

/// The failure for a file that is asked for at a depth at which nothing
/// more may be put in.
pub open spec fn too_deep(path: Seq<char>) -> ParseErrorView {
    ParseETView::IOError("files include each other too deep: "@ + path).error().when(
        "doing IO operation"@,
    )
}

/// The text of the file at `path` with every file it asks for put in,
/// each after the same was done to it with one level less of `depth`. A
/// text that asks for nothing is itself at any depth.
pub open spec fn expanded(path: Seq<char>, text: Seq<char>, files: Files, depth: nat) -> Result<
    Seq<char>,
    ParseErrorView,
>
    decreases depth, 1nat, 0nat,
{
    spliced(dir_of(path), text, directives_of(text), files, depth)
}

/// The text with the files `asked` for put in, in their order: each takes
/// every place that asks for it in the text as the files before it have
/// left it. The first file that is missing, or asked for too deep, ends
/// it.
pub open spec fn spliced(
    dir: Seq<char>,
    text: Seq<char>,
    asked: Seq<Seq<char>>,
    files: Files,
    depth: nat,
) -> Result<Seq<char>, ParseErrorView>
    decreases depth, 0nat, asked.len(),
{
    if asked.len() == 0 {
        Ok(text)
    } else {
        let file = path_of(dir, asked[0]);
        match text_at(files, file) {
            None => Err(missing_file(file)),
            Some(content) => if depth == 0 {
                Err(too_deep(file))
            } else {
                match expanded(file, content, files, (depth - 1) as nat) {
                    Err(e) => Err(e),
                    Ok(put) => spliced(
                        dir,
                        replaced(text, directive() + asked[0], put),
                        asked.drop_first(),
                        files,
                        depth,
                    ),
                }
            },
        }
    }
}

/// The index of the first of `files` that lies at `path`.
fn find(files: &Vec<(String, String)>, path: &str) -> (res: Option<usize>)
    ensures
        match res {
            Some(i) => i < files@.len() && text_at(files_of(files@), path@) == Some(files@[i as int].1@),
            None => text_at(files_of(files@), path@) is None,
        },
{
    let ghost all = files_of(files@);
    let mut i: usize = 0;
    assert(all.skip(0) =~= all);
    while i < files.len()
        invariant
            i <= files@.len(),
            all == files_of(files@),
            text_at(all, path@) == text_at(all.skip(i as int), path@),
        decreases files@.len() - i,
    {
        assert(all.skip(i as int)[0] == all[i as int]);
        assert(all.skip(i as int).drop_first() =~= all.skip(i + 1));
        if same_text(files[i].0.as_str(), path) {
            return Some(i);
        }
        i += 1;
    }
    None
}

/// The failure with the message `what` and the path behind it.
fn refuse(what: &str, path: &str) -> (res: ParseError)
    ensures
        res@ == ParseETView::IOError(what@ + path@).error().when("doing IO operation"@),
{
    let mut message = String::from_str(what);
    message.append(path);
    ParseError::from_io(message)
}

/// The text of the file at `path` with every file it asks for put in.
/// `files` holds the files that may be asked for; `depth` is how deep
/// files may ask for files.
pub fn expand(path: &str, text: &str, files: &Vec<(String, String)>, depth: usize) -> (res: Result<
    String,
    ParseError,
>)
    ensures
        match expanded(path@, text@, files_of(files@), depth as nat) {
            Ok(t) => res is Ok && res->Ok_0@ == t,
            Err(e) => res is Err && res->Err_0@ == e,
        },
    decreases depth,
{
    let dir = parent_dir(path);
    let asked = include_directives(text);
    let mut file = String::from_str(text);
    let mut i: usize = 0;
    assert(texts_of(asked@).skip(0) =~= texts_of(asked@));
    while i < asked.len()
        invariant
            i <= asked@.len(),
            expanded(path@, text@, files_of(files@), depth as nat) == spliced(
                dir@,
                file@,
                texts_of(asked@).skip(i as int),
                files_of(files@),
                depth as nat,
            ),
        decreases asked@.len() - i,
    {
        let ghost rest = texts_of(asked@).skip(i as int);
        assert(rest[0] == asked@[i as int]@);
        assert(rest.drop_first() =~= texts_of(asked@).skip(i + 1));
        let name = include_path(dir.as_str(), asked[i].as_str());
        let at = match find(files, name.as_str()) {
            Some(at) => at,
            None => return Err(refuse("error including file: ", name.as_str())),
        };
        if depth == 0 {
            return Err(refuse("files include each other too deep: ", name.as_str()));
        }
        let put = match expand(name.as_str(), files[at].1.as_str(), files, depth - 1) {
            Ok(put) => put,
            Err(e) => return Err(e),
        };
        file = splice(file.as_str(), asked[i].as_str(), put.as_str());
        i += 1;
    }
    Ok(file)
}

} // verus!
