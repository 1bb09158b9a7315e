use vstd::prelude::*;
use vstd::std_specs::iter::IteratorSpec;

verus! {

/// One location to mount, as a line of the mounts file describes it.
#[derive(Debug, PartialEq, Eq)]
pub struct MountEntry {
    pub mount_path: String,
    pub is_anonymous: bool,
}

/// The model of a [`MountEntry`].
pub struct MountEntryView {
    pub mount_path: Seq<char>,
    pub is_anonymous: bool,
}

impl View for MountEntry {
    type V = MountEntryView;

    open spec fn view(&self) -> MountEntryView {
        MountEntryView { mount_path: self.mount_path@, is_anonymous: self.is_anonymous }
    }
}

impl DeepView for MountEntry {
    type V = MountEntryView;

    open spec fn deep_view(&self) -> MountEntryView {
        self@
    }
}

/// The marker that, at the start of a line, asks for an anonymous mount.
pub open spec fn anonymous_marker() -> Seq<char> {
    "[anonymous]"@
}

/// The position of the first line feed in `text`, or its length if it holds
/// none.
pub open spec fn line_end(text: Seq<char>) -> nat
    decreases text.len(),
{
    if text.len() == 0 || text[0] == '\n' {
        0
    } else {
        1 + line_end(text.drop_first())
    }
}

/// `line` without the carriage return that it ends with, if it ends with one.
pub open spec fn trim_carriage_return(line: Seq<char>) -> Seq<char> {
    if line.len() > 0 && line.last() == '\r' {
        line.drop_last()
    } else {
        line
    }
}

/// The lines of `text`. A line ends with a line feed, or with a carriage
/// return and a line feed; neither belongs to the line. What follows the last
/// line feed is a line of its own unless it is empty, and keeps a carriage
/// return that it ends with.
pub open spec fn lines(text: Seq<char>) -> Seq<Seq<char>>
    decreases text.len(),
{
    if text.len() == 0 {
        Seq::empty()
    } else {
        let end = line_end(text) as int;
        if end >= text.len() {
            seq![text]
        } else {
            seq![trim_carriage_return(text.take(end))] + lines(text.skip(end + 1))
        }
    }
}

/// The entry that a line stands for: with the marker in front, an anonymous
/// mount of what follows the marker; otherwise a mount of the whole line
/// with credentials.
pub open spec fn entry_of_line(line: Seq<char>) -> MountEntryView {
    if anonymous_marker().is_prefix_of(line) {
        MountEntryView {
            mount_path: line.skip(anonymous_marker().len() as int),
            is_anonymous: true,
        }
    } else {
        MountEntryView { mount_path: line, is_anonymous: false }
    }
}

/// The entries of the lines `all`: the entry of each line that is not
/// empty, in the order of the lines.
pub open spec fn entries_of_lines(all: Seq<Seq<char>>) -> Seq<MountEntryView> {
    all.filter(|line: Seq<char>| line.len() > 0).map_values(
        |line: Seq<char>| entry_of_line(line),
    )
}

/// The entries that the content of a mounts file lists.
pub open spec fn parsed(content: Seq<char>) -> Seq<MountEntryView> {
    entries_of_lines(lines(content))
}

/// `entries` followed by the entry of `line`, or `entries` alone where the
/// line is empty.
spec fn with_line(entries: Seq<MountEntryView>, line: Seq<char>) -> Seq<MountEntryView> {
    if line.len() == 0 {
        entries
    } else {
        entries.push(entry_of_line(line))
    }
}

/// The entries of the lines `all`, gathered line by line.
spec fn gathered(all: Seq<Seq<char>>) -> Seq<MountEntryView>
    decreases all.len(),
{
    if all.len() == 0 {
        Seq::empty()
    } else {
        with_line(gathered(all.drop_last()), all.last())
    }
}

/// The marker, character by character.
pub proof fn lemma_anonymous_marker()
    ensures
        anonymous_marker() == seq!['[', 'a', 'n', 'o', 'n', 'y', 'm', 'o', 'u', 's', ']'],
{
    reveal_strlit("[anonymous]");
    assert(anonymous_marker() =~= seq!['[', 'a', 'n', 'o', 'n', 'y', 'm', 'o', 'u', 's', ']']);
}

/// `line_end` lies within the text, on a line feed if on anything, and no
/// line feed comes before it.
pub proof fn lemma_line_end(text: Seq<char>)
    ensures
        line_end(text) <= text.len(),
        line_end(text) < text.len() ==> text[line_end(text) as int] == '\n',
        forall|j: int| 0 <= j < line_end(text) ==> text[j] != '\n',
    decreases text.len(),
{
    if text.len() == 0 || text[0] == '\n' {
    } else {
        let rest = text.drop_first();
        lemma_line_end(rest);
        assert forall|j: int| 0 <= j < line_end(text) implies text[j] != '\n' by {
            if j > 0 {
                assert(text[j] == rest[j - 1]);
            }
        }
    }
}

/// A position with no line feed before it, which is the end of the text or
/// holds a line feed, is the `line_end`.
pub proof fn lemma_line_end_unique(text: Seq<char>, end: int)
    requires
        0 <= end <= text.len(),
        end < text.len() ==> text[end] == '\n',
        forall|j: int| 0 <= j < end ==> text[j] != '\n',
    ensures
        line_end(text) == end,
    decreases text.len(),
{
    if end == 0 {
    } else {
        let rest = text.drop_first();
        assert(text[0] != '\n');
        assert forall|j: int| 0 <= j < end - 1 implies rest[j] != '\n' by {
            assert(rest[j] == text[j + 1]);
        }
        lemma_line_end_unique(rest, end - 1);
    }
}

/// No line holds a line feed.
pub proof fn lemma_lines_hold_no_line_feed(text: Seq<char>)
    ensures
        forall|i: int, j: int|
            0 <= i < lines(text).len() && 0 <= j < lines(text)[i].len() ==> lines(text)[i][j]
                != '\n',
    decreases text.len(),
{
    if text.len() > 0 {
        lemma_line_end(text);
        let end = line_end(text) as int;
        if end < text.len() {
            let rest = lines(text.skip(end + 1));
            let first = trim_carriage_return(text.take(end));
            lemma_lines_hold_no_line_feed(text.skip(end + 1));
            assert forall|i: int, j: int|
                0 <= i < lines(text).len() && 0 <= j < lines(text)[i].len() implies lines(
                text,
            )[i][j] != '\n' by {
                if i == 0 {
                    assert(lines(text)[0] == first);
                    assert(first[j] == text[j]);
                } else {
                    assert(lines(text)[i] == rest[i - 1]);
                }
            }
        }
    }
}

/// Gathering the entries line by line gives the entries of the lines.
proof fn lemma_gathered(all: Seq<Seq<char>>)
    ensures
        gathered(all) == entries_of_lines(all),
    decreases all.len(),
{
    let kept = |line: Seq<char>| line.len() > 0;
    let entry = |line: Seq<char>| entry_of_line(line);
    reveal(Seq::filter);
    if all.len() > 0 {
        lemma_gathered(all.drop_last());
        let front = all.drop_last().filter(kept);
        if all.last().len() > 0 {
            assert(all.filter(kept) == front.push(all.last()));
            assert(front.push(all.last()).map_values(entry) =~= front.map_values(entry).push(
                entry_of_line(all.last()),
            ));
        } else {
            assert(all.filter(kept) == front);
        }
    } else {
        assert(all.filter(kept).map_values(entry) =~= Seq::<MountEntryView>::empty());
    }
}

/// A text without characters lists no entry.
pub proof fn lemma_empty_content_lists_nothing()
    ensures
        parsed(Seq::<char>::empty()) == Seq::<MountEntryView>::empty(),
{
    assert(lines(Seq::<char>::empty()) =~= Seq::<Seq<char>>::empty());
    lemma_gathered(Seq::<Seq<char>>::empty());
}

/// Every entry is the entry of a line of the text that is not empty.
pub proof fn lemma_entries_come_from_lines(content: Seq<char>, k: int)
    requires
        0 <= k < parsed(content).len(),
    ensures
        exists|i: int|
            0 <= i < lines(content).len() && (#[trigger] lines(content)[i]).len() > 0 && parsed(
                content,
            )[k] == entry_of_line(lines(content)[i]),
{
    let kept = |line: Seq<char>| line.len() > 0;
    let all = lines(content);
    let listed = all.filter(kept);
    all.lemma_filter_contains_rev(kept, listed[k]);
    let i = choose|i: int| 0 <= i < all.len() && all[i] == listed[k];
    assert(all[i].len() > 0);
}

/// The path of an entry is empty only where its line is the bare marker: a
/// line that is not empty and asks for credentials always names a path.
pub proof fn lemma_path_is_empty_only_for_bare_marker(line: Seq<char>)
    requires
        line.len() > 0,
    ensures
        entry_of_line(line).mount_path.len() == 0 <==> line == anonymous_marker(),
{
    let marker = anonymous_marker();
    if marker.is_prefix_of(line) {
        if line.len() == marker.len() {
            assert(line =~= marker);
        }
    } else {
        assert(marker.is_prefix_of(marker)) by {
            assert(marker =~= marker.subrange(0, marker.len() as int));
        }
    }
}

/// Whether `line`, of `len` characters, begins with the anonymous marker.
fn starts_with_marker(line: &str, len: usize) -> (found: bool)
    requires
        len == line@.len(),
    ensures
        found == anonymous_marker().is_prefix_of(line@),
{
    let marker = "[anonymous]";
    proof {
        reveal_strlit("[anonymous]");
    }
    if len < 11 {
        return false;
    }
    let mut k: usize = 0;
    while k < 11
        invariant
            k <= 11,
            marker@ == anonymous_marker(),
            marker@.len() == 11,
            line@.len() >= 11,
            forall|j: int| 0 <= j < k ==> line@[j] == marker@[j],
        decreases 11 - k,
    {
        if line.get_char(k) != marker.get_char(k) {
            assert(line@.subrange(0, 11)[k as int] != marker@[k as int]);
            return false;
        }
        k = k + 1;
    }
    assert(marker@ =~= line@.subrange(0, 11));
    true
}

/// Appends to `entries` the entry of the line that `content` holds from
/// character `from` up to character `to`, unless that line is empty.
fn push_line(content: &str, from: usize, to: usize, entries: &mut Vec<MountEntry>)
    requires
        from <= to <= content@.len(),
    ensures
        final(entries).deep_view() == with_line(
            old(entries).deep_view(),
            content@.subrange(from as int, to as int),
        ),
{
    if from == to {
        return ;
    }
    let ghost before = entries.deep_view();
    let line = content.substring_char(from, to);
    let len: usize = to - from;
    let entry = if starts_with_marker(line, len) {
        proof {
            reveal_strlit("[anonymous]");
        }
        MountEntry { mount_path: line.substring_char(11, len).to_owned(), is_anonymous: true }
    } else {
        MountEntry { mount_path: line.to_owned(), is_anonymous: false }
    };
    assert(entry@ == entry_of_line(line@));
    entries.push(entry);
    assert(entries.deep_view() =~= before.push(entry_of_line(line@)));
}

/// Reads the entries that the content of a mounts file lists: one for each
/// line that is not empty, in the order of the lines.
pub fn parse_entries(content: &str) -> (entries: Vec<MountEntry>)
    ensures
        entries.deep_view() == parsed(content@),
{
    let n: usize = content.unicode_len();
    let mut entries: Vec<MountEntry> = Vec::new();
    let mut chars = content.chars();
    let mut start: usize = 0;
    let mut i: usize = 0;
    let mut after_cr = false;
    let ghost mut done: Seq<Seq<char>> = Seq::empty();
    assert(content@.skip(0) =~= content@);
    assert(lines(content@) =~= done + lines(content@.skip(0)));
    assert(entries.deep_view() =~= gathered(done));
    while i < n
        invariant
            start <= i <= n,
            n == content@.len(),
            chars.obeys_prophetic_iter_laws(),
            chars.remaining() == content@.skip(i as int),
            forall|j: int| start <= j < i ==> content@[j] != '\n',
            after_cr == (start < i && content@[i - 1] == '\r'),
            lines(content@) == done + lines(content@.skip(start as int)),
            entries.deep_view() == gathered(done),
        decreases n - i,
    {
        let next = chars.next();
        assert(next == Some(content@[i as int]));
        assert(chars.remaining() =~= content@.skip(i + 1));
        let c = next.unwrap();
        if c == '\n' {
            let end: usize = if after_cr {
                i - 1
            } else {
                i
            };
            push_line(content, start, end, &mut entries);
            proof {
                let rest = content@.skip(start as int);
                let line = content@.subrange(start as int, i as int);
                lemma_line_end_unique(rest, i - start);
                assert(rest.take(i - start) =~= line);
                assert(rest.skip(i - start + 1) =~= content@.skip(i + 1));
                assert(trim_carriage_return(line) =~= content@.subrange(start as int, end as int));
                let trimmed = trim_carriage_return(line);
                assert(done + lines(rest) =~= done.push(trimmed) + lines(content@.skip(i + 1)));
                assert(done.push(trimmed).drop_last() =~= done);
                done = done.push(trimmed);
            }
            start = i + 1;
            after_cr = false;
        } else {
            after_cr = c == '\r';
        }
        i = i + 1;
    }
    push_line(content, start, n, &mut entries);
    proof {
        let rest = content@.skip(start as int);
        if start < n {
            lemma_line_end_unique(rest, n - start);
            assert(rest =~= content@.subrange(start as int, n as int));
            assert(done + lines(rest) =~= done.push(rest));
            assert(done.push(rest).drop_last() =~= done);
        } else {
            assert(content@.subrange(start as int, n as int).len() == 0);
            assert(done + lines(rest) =~= done);
        }
        lemma_gathered(lines(content@));
    }
    entries
}

} // verus!
