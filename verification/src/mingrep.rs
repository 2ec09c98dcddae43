//! Line search: the lines of a text that contain a keyword, with or without
//! regard to letter case.

use vstd::prelude::*;

verus! {

/// The index of the first line feed in `text`, or the length of `text` where
/// it holds none.
pub open spec fn first_newline(text: Seq<char>) -> int
    decreases text.len(),
{
    if text.len() == 0 {
        0
    } else if text[0] == '\n' {
        0
    } else {
        1 + first_newline(text.drop_first())
    }
}

/// `line` without one carriage return at its end, if it has one there.
pub open spec fn without_cr(line: Seq<char>) -> Seq<char> {
    if line.len() > 0 && line.last() == '\r' {
        line.drop_last()
    } else {
        line
    }
}

/// The lines of `text`. A line ends at a line feed, which is not part of the
/// line; a carriage return directly before that line feed is not part of it
/// either. What follows the last line feed is a line of its own unless it is
/// empty, and keeps a carriage return at its end.
pub open spec fn lines_of(text: Seq<char>) -> Seq<Seq<char>>
    decreases text.len(),
{
    let end = first_newline(text);
    if text.len() == 0 {
        Seq::empty()
    } else if end < 0 || end >= text.len() {
        seq![text]
    } else {
        seq![without_cr(text.subrange(0, end))] + lines_of(text.subrange(end + 1, text.len() as int))
    }
}

/// Whether `needle` occurs in `text` as a run of consecutive characters.
pub open spec fn occurs_in(needle: Seq<char>, text: Seq<char>) -> bool {
    exists|start: int|
        0 <= start && start + needle.len() <= text.len() && #[trigger] text.subrange(
            start,
            start + needle.len(),
        ) == needle
}

/// The lower-case form of `text` as `str::to_lowercase` gives it.
pub uninterp spec fn lowercase_of(text: Seq<char>) -> Seq<char>;

/// The character sequences of a list of string slices.
pub open spec fn texts(lines: Seq<&str>) -> Seq<Seq<char>> {
    lines.map_values(|line: &str| line@)
}

/// The character sequences of a list of lines with their keys.
pub open spec fn entry_texts(entries: Seq<(&str, String)>) -> Seq<(Seq<char>, Seq<char>)> {
    entries.map_values(|entry: (&str, String)| (entry.0@, entry.1@))
}

/// The test whether a line contains `keyword`.
pub open spec fn holds(keyword: Seq<char>) -> spec_fn(Seq<char>) -> bool {
    |line: Seq<char>| occurs_in(keyword, line)
}

/// The test whether the lower-case form of a line contains `query`.
pub open spec fn holds_lowered(query: Seq<char>) -> spec_fn(Seq<char>) -> bool {
    |line: Seq<char>| occurs_in(query, lowercase_of(line))
}

/// The test whether the key of a line contains `query`.
pub open spec fn key_holds(query: Seq<char>) -> spec_fn((Seq<char>, Seq<char>)) -> bool {
    |entry: (Seq<char>, Seq<char>)| occurs_in(query, entry.1)
}

/// Each of `lines` with its lower-case form as its key.
pub open spec fn keyed_by_lowercase(lines: Seq<Seq<char>>) -> Seq<(Seq<char>, Seq<char>)> {
    lines.map_values(|line: Seq<char>| (line, lowercase_of(line)))
}

/// The lines of `text` that contain `keyword`, in their order.
pub open spec fn matching_lines(keyword: Seq<char>, text: Seq<char>) -> Seq<Seq<char>> {
    lines_of(text).filter(holds(keyword))
}

/// The lines of `text` whose lower-case form contains the lower-case form of
/// `keyword`, in their order.
pub open spec fn matching_lines_insensitive(keyword: Seq<char>, text: Seq<char>) -> Seq<Seq<char>> {
    lines_of(text).filter(holds_lowered(lowercase_of(keyword)))
}

/// The lines among `entries`, pairs of a line and its key, whose key
/// contains `query`, in their order.
pub open spec fn selected(entries: Seq<(Seq<char>, Seq<char>)>, query: Seq<char>) -> Seq<
    Seq<char>,
> {
    entries.filter(key_holds(query)).map_values(|entry: (Seq<char>, Seq<char>)| entry.0)
}

/// Calls `str::lines` and collects what it yields. The contract restates the
/// documented splitting: lines end at `\n` or `\r\n`, the terminator is left
/// out, and a final terminator opens no further line.
#[verifier::external_body]
fn split_lines<'a>(text: &'a str) -> (lines: Vec<&'a str>)
    ensures
        texts(lines@) == lines_of(text@),
{
    text.lines().collect()
}

/// Calls `str::contains` with a string slice as the pattern: whether the
/// pattern matches a part of the text.
#[verifier::external_body]
fn contains(text: &str, needle: &str) -> (found: bool)
    ensures
        found == occurs_in(needle@, text@),
{
    text.contains(needle)
}

/// Calls `str::to_lowercase`, whose result depends on the text alone.
#[verifier::external_body]
fn to_lowercase(text: &str) -> (lowered: String)
    ensures
        lowered@ == lowercase_of(text@),
{
    text.to_lowercase()
}

/// Selecting one entry more: the line of the entry joins the selected lines
/// exactly when its key contains the query.
proof fn lemma_selected_push(
    entries: Seq<(Seq<char>, Seq<char>)>,
    entry: (Seq<char>, Seq<char>),
    query: Seq<char>,
)
    ensures
        selected(entries.push(entry), query) == if occurs_in(query, entry.1) {
            selected(entries, query).push(entry.0)
        } else {
            selected(entries, query)
        },
{
    entries.lemma_filter_push(entry, key_holds(query));
    if occurs_in(query, entry.1) {
        assert(selected(entries.push(entry), query) =~= selected(entries, query).push(entry.0));
    }
}

/// Nothing is selected from no entries.
proof fn lemma_selected_none(query: Seq<char>)
    ensures
        selected(Seq::empty(), query) == Seq::<Seq<char>>::empty(),
{
    let none = Seq::<(Seq<char>, Seq<char>)>::empty();
    none.lemma_filter_len(key_holds(query));
    assert(selected(none, query) =~= Seq::<Seq<char>>::empty());
}

/// Selecting by the lower-case forms is filtering by them.
proof fn lemma_selected_by_lowercase(lines: Seq<Seq<char>>, query: Seq<char>)
    ensures
        selected(keyed_by_lowercase(lines), query) == lines.filter(holds_lowered(query)),
    decreases lines.len(),
{
    if lines.len() > 0 {
        let earlier = lines.drop_last();
        let last = (lines.last(), lowercase_of(lines.last()));
        lemma_selected_by_lowercase(earlier, query);
        assert(keyed_by_lowercase(lines) == keyed_by_lowercase(earlier).push(last));
        assert(lines == earlier.push(lines.last()));
        lemma_selected_push(keyed_by_lowercase(earlier), last, query);
        earlier.lemma_filter_push(lines.last(), holds_lowered(query));
    } else {
        lemma_selected_none(query);
        assert(keyed_by_lowercase(lines) == Seq::<(Seq<char>, Seq<char>)>::empty());
        lines.lemma_filter_len(holds_lowered(query));
        assert(lines.filter(holds_lowered(query)) == Seq::<Seq<char>>::empty());
    }
}

/// The lines whose key contains `query`: of the entries, pairs of a line and
/// its key, the line is kept exactly when the key contains `query`, and the
/// kept lines stay in order.
pub fn select_lines<'a>(entries: &Vec<(&'a str, String)>, query: &str) -> (found: Vec<&'a str>)
    ensures
        texts(found@) == selected(entry_texts(entries@), query@),
{
    let mut found: Vec<&'a str> = Vec::new();
    let mut done: usize = 0;
    proof {
        let none = entry_texts(entries@).take(0);
        lemma_selected_none(query@);
        assert(none == Seq::<(Seq<char>, Seq<char>)>::empty());
        assert(texts(found@) == Seq::<Seq<char>>::empty());
    }
    while done < entries.len()
        invariant
            done <= entries.len(),
            texts(found@) == selected(entry_texts(entries@).take(done as int), query@),
        decreases entries.len() - done,
    {
        let line: &'a str = entries[done].0;
        let hit = contains(entries[done].1.as_str(), query);
        proof {
            let all = entry_texts(entries@);
            let entry = (line@, entries[done as int].1@);
            assert(all.take(done + 1) == all.take(done as int).push(entry));
            lemma_selected_push(all.take(done as int), entry, query@);
            if hit {
                assert(texts(found@.push(line)) == texts(found@).push(line@));
            }
        }
        if hit {
            found.push(line);
        }
        done = done + 1;
    }
    proof {
        assert(entry_texts(entries@).take(done as int) == entry_texts(entries@));
    }
    found
}

/// The lines of `text` that contain `keyword`, in their order. Letter case
/// counts.
pub fn search<'a>(keyword: &str, text: &'a str) -> (found: Vec<&'a str>)
    ensures
        texts(found@) == matching_lines(keyword@, text@),
{
    let lines = split_lines(text);
    let mut found: Vec<&'a str> = Vec::new();
    let mut done: usize = 0;
    proof {
        let none = lines_of(text@).take(0);
        none.lemma_filter_len(holds(keyword@));
        assert(none.filter(holds(keyword@)) == Seq::<Seq<char>>::empty());
        assert(texts(found@) == Seq::<Seq<char>>::empty());
    }
    while done < lines.len()
        invariant
            done <= lines.len(),
            texts(lines@) == lines_of(text@),
            texts(found@) == lines_of(text@).take(done as int).filter(holds(keyword@)),
        decreases lines.len() - done,
    {
        let line: &'a str = lines[done];
        let hit = contains(line, keyword);
        proof {
            let all = lines_of(text@);
            assert(all.take(done + 1) == all.take(done as int).push(line@)) by {
                assert(all[done as int] == texts(lines@)[done as int]);
            }
            all.take(done as int).lemma_filter_push(line@, holds(keyword@));
            if hit {
                assert(texts(found@.push(line)) == texts(found@).push(line@));
            }
        }
        if hit {
            found.push(line);
        }
        done = done + 1;
    }
    proof {
        assert(lines_of(text@).take(done as int) == lines_of(text@));
    }
    found
}

/// The lines of `text` that contain `keyword` when letter case is ignored:
/// both the keyword and each line are compared in their lower-case form.
pub fn search_case_insensitive<'a>(keyword: &str, text: &'a str) -> (found: Vec<&'a str>)
    ensures
        texts(found@) == matching_lines_insensitive(keyword@, text@),
{
    let query = to_lowercase(keyword);
    let lines = split_lines(text);
    let mut entries: Vec<(&'a str, String)> = Vec::new();
    let mut done: usize = 0;
    while done < lines.len()
        invariant
            done <= lines.len(),
            entries.len() == done,
            forall|i: int|
                0 <= i < done ==> (#[trigger] entries[i]).0@ == lines[i]@ && entries[i].1@
                    == lowercase_of(lines[i]@),
        decreases lines.len() - done,
    {
        let line: &'a str = lines[done];
        entries.push((line, to_lowercase(line)));
        done = done + 1;
    }
    proof {
        lemma_selected_by_lowercase(lines_of(text@), query@);
        assert(entry_texts(entries@) == keyed_by_lowercase(texts(lines@)));
    }
    select_lines(&entries, query.as_str())
}

/// What a search was asked for: the file to read, the keyword to look for,
/// and whether letter case is ignored.
#[derive(Debug)]
pub struct Param {
    file_path: String,
    keyword: String,
    ignore_case: bool,
}

/// The mathematical content of a [`Param`].
pub ghost struct ParamView {
    pub file_path: Seq<char>,
    pub keyword: Seq<char>,
    pub ignore_case: bool,
}

impl View for Param {
    type V = ParamView;

    closed spec fn view(&self) -> ParamView {
        ParamView {
            file_path: self.file_path@,
            keyword: self.keyword@,
            ignore_case: self.ignore_case,
        }
    }
}

/// What is said of an argument list that is too short.
pub open spec fn usage() -> Seq<char> {
    "require keyword and file path, usage: mingrep <file_path> <keyword>"@
}

impl Param {
    /// Reads the parameters from a command line: `args[0]` is the program's
    /// name, `args[1]` the file path and `args[2]` the keyword; further
    /// arguments are ignored. `ignore_case` says whether the environment asks
    /// to ignore letter case. Fewer than three arguments are refused with the
    /// usage message.
    pub fn from(args: Vec<String>, ignore_case: bool) -> (parsed: Result<Param, &'static str>)
        ensures
            args.len() < 3 <==> parsed is Err,
            parsed matches Err(message) ==> message@ == usage(),
            parsed matches Ok(param) ==> param@ == (ParamView {
                file_path: args[1]@,
                keyword: args[2]@,
                ignore_case,
            }),
    {
        if args.len() < 3 {
            return Err("require keyword and file path, usage: mingrep <file_path> <keyword>");
        }
        let file_path = args[1].clone();
        let keyword = args[2].clone();
        Ok(Param { file_path, keyword, ignore_case })
    }

    /// The path of the file to search.
    pub fn file_path(&self) -> (path: &str)
        ensures
            path@ == self@.file_path,
    {
        self.file_path.as_str()
    }

    /// The keyword to look for.
    pub fn keyword(&self) -> (keyword: &str)
        ensures
            keyword@ == self@.keyword,
    {
        self.keyword.as_str()
    }

    /// Whether letter case is ignored.
    pub fn ignore_case(&self) -> (ignore: bool)
        ensures
            ignore == self@.ignore_case,
    {
        self.ignore_case
    }
}

/// Searches `text`, the content of the file that `params` names, for the
/// keyword of `params`, with or without regard to letter case as `params`
/// asks, and returns the lines to print.
pub fn run<'a>(params: &Param, text: &'a str) -> (found: Vec<&'a str>)
    ensures
        texts(found@) == if params@.ignore_case {
            matching_lines_insensitive(params@.keyword, text@)
        } else {
            matching_lines(params@.keyword, text@)
        },
{
    if params.ignore_case {
        search_case_insensitive(params.keyword(), text)
    } else {
        search(params.keyword(), text)
    }
}

} // verus!
