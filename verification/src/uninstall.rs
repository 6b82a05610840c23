//! Taking remux off a machine: the question before it, and the lines that the
//! shells read.

use vstd::prelude::*;

use crate::text;

verus! {

// ---- The question ----

/// What the user is asked.
pub open spec fn prompt_text(home: Seq<char>) -> Seq<char> {
    "This will remove "@ + home + " and all its contents.\nContinue? [y/N]: "@
}

/// What the user is asked.
pub fn prompt(home: &str) -> (r: String)
    ensures
        r@ == prompt_text(home@),
{
    let mut out = "This will remove ".to_string();
    out.append(home);
    out.append(" and all its contents.\nContinue? [y/N]: ");
    out
}

/// Whether an answer means yes, where no answer does not.
pub open spec fn confirmed(input: Seq<char>) -> bool {
    let a = text::lowered(text::trimmed(input));
    a == "y"@ || a == "yes"@
}

/// Whether the user agrees.
pub fn confirms(input: &str) -> (r: bool)
    ensures
        r == confirmed(input@),
{
    let a = text::to_lower(text::trim(input));
    text::same(a.as_str(), "y") || text::same(a.as_str(), "yes")
}

// ---- What the shells read ----

/// The files that shells read at their start, in a home directory.
pub open spec fn rc_paths(home: Seq<char>) -> Seq<Seq<char>> {
    if home.len() == 0 {
        Seq::empty()
    } else {
        seq![
            home + "/.zshrc"@,
            home + "/.bashrc"@,
            home + "/.bash_profile"@,
            home + "/.profile"@,
            home + "/.config/fish/config.fish"@,
        ]
    }
}

fn appended(home: &str, name: &str) -> (r: String)
    ensures
        r@ == home@ + name@,
{
    let mut out = home.to_string();
    out.append(name);
    out
}

/// The files that shells read at their start, in a home directory; none where
/// it is not known.
pub fn rc_files(home: &str) -> (r: Vec<String>)
    ensures
        text::texts(r@) == rc_paths(home@),
{
    let mut paths: Vec<String> = Vec::new();
    if home.unicode_len() > 0 {
        paths.push(appended(home, "/.zshrc"));
        paths.push(appended(home, "/.bashrc"));
        paths.push(appended(home, "/.bash_profile"));
        paths.push(appended(home, "/.profile"));
        paths.push(appended(home, "/.config/fish/config.fish"));
    }
    assert(text::texts(paths@) =~= rc_paths(home@));
    paths
}

/// Whether a line is the comment that starts the block.
pub open spec fn is_marker(line: Seq<char>) -> bool {
    text::trimmed(line) == "# remux"@
}

/// Where the block ends whose comment stands in front of `at`: behind blank lines
/// and one line that speaks of `.remux`.
pub open spec fn block_end(lines: Seq<Seq<char>>, at: int) -> int
    decreases lines.len() - at,
{
    if at >= lines.len() {
        at
    } else if text::trimmed(lines[at]).len() == 0 {
        block_end(lines, at + 1)
    } else if text::occurs(lines[at], ".remux"@) {
        at + 1
    } else {
        at
    }
}

/// Lines without the empty one that they end with.
pub open spec fn without_empty_end(lines: Seq<Seq<char>>) -> Seq<Seq<char>> {
    if lines.len() > 0 && lines.last().len() == 0 {
        lines.drop_last()
    } else {
        lines
    }
}

/// A block ends behind its start and not behind the last line.
pub proof fn lemma_block_end(lines: Seq<Seq<char>>, at: int)
    ensures
        at <= block_end(lines, at),
        at <= lines.len() ==> block_end(lines, at) <= lines.len(),
    decreases lines.len() - at,
{
    if at < lines.len() {
        lemma_block_end(lines, at + 1);
    }
}

/// The lines that stay, from `at` on, behind those that already do. With a block
/// goes the empty line in front of it.
pub open spec fn kept_from(lines: Seq<Seq<char>>, at: int, kept: Seq<Seq<char>>) -> Seq<Seq<char>>
    decreases lines.len() - at,
{
    if at >= lines.len() {
        kept
    } else if is_marker(lines[at]) {
        proof {
            lemma_block_end(lines, at + 1);
        }
        kept_from(lines, block_end(lines, at + 1), without_empty_end(kept))
    } else {
        kept_from(lines, at + 1, kept.push(lines[at]))
    }
}

/// The lines that stay.
pub open spec fn kept(lines: Seq<Seq<char>>) -> Seq<Seq<char>> {
    kept_from(lines, 0, Seq::empty())
}

/// Lines as a text, with a line feed at the end or without it.
pub open spec fn assembled(lines: Seq<Seq<char>>, ended: bool) -> Seq<char> {
    text::joined(lines, "\n"@) + if ended {
        "\n"@
    } else {
        Seq::empty()
    }
}

/// Whether a text ends with a line feed.
pub open spec fn ended(s: Seq<char>) -> bool {
    "\n"@.is_suffix_of(s)
}

/// A text without the block.
pub open spec fn cleaned(s: Seq<char>) -> Seq<char> {
    assembled(kept(text::text_lines(s)), ended(s))
}

fn find_block_end(lines: &Vec<String>, at: usize) -> (r: usize)
    requires
        at <= lines@.len(),
    ensures
        r == block_end(text::texts(lines@), at as int),
        at <= r <= lines@.len(),
{
    let ghost all = text::texts(lines@);
    let mut i: usize = at;
    while i < lines.len()
        invariant
            all == text::texts(lines@),
            at <= i <= lines@.len(),
            block_end(all, at as int) == block_end(all, i as int),
        decreases lines@.len() - i,
    {
        assert(all[i as int] == lines@[i as int]@);
        let line = lines[i].as_str();
        if text::trim(line).unicode_len() == 0 {
            i = i + 1;
        } else if text::contains(line, ".remux") {
            return i + 1;
        } else {
            return i;
        }
    }
    i
}

/// Removes the block that puts the program on the search path: a comment, and
/// the line behind it.
pub fn remove_remux_block(contents: &str) -> (r: String)
    ensures
        r@ == cleaned(contents@),
{
    let lines = text::lines(contents);
    let ghost all = text::text_lines(contents@);
    let mut result: Vec<String> = Vec::new();
    let mut i: usize = 0;
    assert(text::texts(result@) =~= Seq::empty());
    while i < lines.len()
        invariant
            all == text::texts(lines@),
            i <= lines@.len(),
            kept(all) == kept_from(all, i as int, text::texts(result@)),
        decreases lines@.len() - i,
    {
        assert(all[i as int] == lines@[i as int]@);
        let ghost before = text::texts(result@);
        let line = lines[i].as_str();
        if text::same(text::trim(line), "# remux") {
            let end: usize = find_block_end(&lines, i + 1);
            let n: usize = result.len();
            if n > 0 {
                assert(before.last() == result@[n - 1]@);
                if result[n - 1].as_str().unicode_len() == 0 {
                    result.pop();
                    assert(text::texts(result@) =~= before.drop_last());
                }
            }
            assert(text::texts(result@) =~= without_empty_end(before));
            i = end;
        } else {
            result.push(line.to_string());
            assert(text::texts(result@) =~= before.push(line@));
            i = i + 1;
        }
    }
    let mut out = text::join(&result, "\n");
    if text::ends_with(contents, "\n") {
        out.append("\n");
    } else {
        assert(out@ + Seq::empty() =~= out@);
    }
    out
}

/// The text without the block, where that changes it.
pub fn clean_rc(contents: &str) -> (r: Option<String>)
    ensures
        r is None <==> cleaned(contents@) == contents@,
        r matches Some(t) ==> t@ == cleaned(contents@),
{
    let t = remove_remux_block(contents);
    if text::same(t.as_str(), contents) {
        None
    } else {
        Some(t)
    }
}

// ---- Laws ----

/// Whether no line starts a block.
pub open spec fn unmarked(lines: Seq<Seq<char>>) -> bool {
    forall|i: int| 0 <= i < lines.len() ==> !is_marker(#[trigger] lines[i])
}

proof fn lemma_kept_unmarked(lines: Seq<Seq<char>>, at: int, so_far: Seq<Seq<char>>)
    requires
        0 <= at,
        unmarked(so_far),
    ensures
        unmarked(kept_from(lines, at, so_far)),
    decreases lines.len() - at,
{
    if at < lines.len() {
        lemma_block_end(lines, at + 1);
        if is_marker(lines[at]) {
            lemma_kept_unmarked(lines, block_end(lines, at + 1), without_empty_end(so_far));
        } else {
            lemma_kept_unmarked(lines, at + 1, so_far.push(lines[at]));
        }
    }
}

/// No block is left.
pub proof fn no_block_is_left(lines: Seq<Seq<char>>)
    ensures
        unmarked(kept(lines)),
{
    lemma_kept_unmarked(lines, 0, Seq::empty());
}

proof fn lemma_kept_rest(lines: Seq<Seq<char>>, at: int, so_far: Seq<Seq<char>>)
    requires
        0 <= at <= lines.len(),
        unmarked(lines.skip(at)),
    ensures
        kept_from(lines, at, so_far) == so_far + lines.skip(at),
    decreases lines.len() - at,
{
    if at < lines.len() {
        assert(!is_marker(lines.skip(at)[0]));
        assert forall|i: int| 0 <= i < lines.skip(at + 1).len() implies !is_marker(
            #[trigger] lines.skip(at + 1)[i],
        ) by {
            assert(lines.skip(at)[i + 1] == lines.skip(at + 1)[i]);
        }
        lemma_kept_rest(lines, at + 1, so_far.push(lines[at]));
        assert(so_far.push(lines[at]) + lines.skip(at + 1) =~= so_far + lines.skip(at));
    } else {
        assert(so_far + lines.skip(at) =~= so_far);
    }
}

proof fn lemma_kept_front(front: Seq<Seq<char>>, rest: Seq<Seq<char>>, at: int)
    requires
        0 <= at <= front.len(),
        unmarked(front),
    ensures
        kept_from(front + rest, at, front.take(at)) == kept_from(
            front + rest,
            front.len() as int,
            front,
        ),
    decreases front.len() - at,
{
    if at < front.len() {
        assert((front + rest)[at] == front[at]);
        lemma_kept_front(front, rest, at + 1);
        assert(front.take(at).push(front[at]) =~= front.take(at + 1));
    } else {
        assert(front.take(at) =~= front);
    }
}

/// The block goes as a whole, with the empty line in front of it, and what stands
/// before and behind it stays.
pub proof fn block_is_removed(
    front: Seq<Seq<char>>,
    marker: Seq<char>,
    entry: Seq<char>,
    rest: Seq<Seq<char>>,
)
    requires
        unmarked(front),
        is_marker(marker),
        text::occurs(entry, ".remux"@),
        unmarked(rest),
    ensures
        kept(front + seq![marker, entry] + rest) == without_empty_end(front) + rest,
{
    reveal_strlit(".remux");
    let lines = front + seq![marker, entry] + rest;
    let n = front.len() as int;
    assert(lines =~= front + (seq![marker, entry] + rest));
    assert(front.take(0) =~= Seq::empty());
    lemma_kept_front(front, seq![marker, entry] + rest, 0);
    let at = choose|at: int| text::occurs_at(entry, ".remux"@, at);
    assert(entry.subrange(at, at + 6)[0] == '.');
    text::lemma_trimmed_nonempty(entry, at);
    assert(lines[n] == marker);
    assert(lines[n + 1] == entry);
    assert(block_end(lines, n + 1) == n + 2);
    assert(lines.skip(n + 2) =~= rest);
    lemma_kept_rest(lines, n + 2, without_empty_end(front));
}

/// Whether a line ends with a carriage return.
pub open spec fn ends_with_return(line: Seq<char>) -> bool {
    line.len() > 0 && line.last() == '\r'
}

proof fn lemma_last_field(s: Seq<char>)
    ensures
        text::fields(s, '\n').len() > 0,
        s.len() > 0 ==> (text::fields(s, '\n').last().len() == 0 <==> s.last() == '\n'),
        s.len() == 0 ==> text::fields(s, '\n').last().len() == 0,
        ended(s) <==> s.len() > 0 && s.last() == '\n',
{
    reveal_strlit("\n");
    text::lemma_fields_nonempty(s, '\n');
    if s.len() > 0 {
        text::lemma_fields_nonempty(s.drop_last(), '\n');
        if s.last() == '\n' {
            assert(s.subrange(s.len() - 1, s.len() as int) =~= "\n"@);
        } else if ended(s) {
            assert(s.subrange(s.len() - 1, s.len() as int)[0] == '\n');
        }
    }
}

proof fn lemma_assembled(s: Seq<char>)
    requires
        forall|i: int|
            0 <= i < text::fields(s, '\n').len() - 1 ==> !ends_with_return(
                #[trigger] text::fields(s, '\n')[i],
            ),
    ensures
        assembled(text::text_lines(s), ended(s)) == s,
{
    reveal_strlit("\n");
    assert("\n"@ =~= seq!['\n']);
    let rows = text::fields(s, '\n');
    let lines = text::text_lines(s);
    lemma_last_field(s);
    text::lemma_join_fields(s, '\n');
    if rows.last().len() == 0 {
        assert(lines =~= rows.drop_last());
        if s.len() > 0 {
            let t = s.drop_last();
            text::lemma_join_fields(t, '\n');
            assert(rows == text::fields(t, '\n').push(Seq::empty()));
            assert(lines =~= text::fields(t, '\n'));
            assert(assembled(lines, true) =~= s);
        } else {
            assert(assembled(lines, false) =~= s);
        }
    } else {
        assert(lines =~= rows);
        assert(assembled(lines, false) =~= s);
    }
}

/// A text without the block stays as it is, unless lines in it end with a carriage
/// return.
pub proof fn other_texts_stay(s: Seq<char>)
    requires
        unmarked(text::text_lines(s)),
        forall|i: int|
            0 <= i < text::fields(s, '\n').len() - 1 ==> !ends_with_return(
                #[trigger] text::fields(s, '\n')[i],
            ),
    ensures
        cleaned(s) == s,
{
    let lines = text::text_lines(s);
    assert(lines.skip(0) =~= lines);
    lemma_kept_rest(lines, 0, Seq::empty());
    assert(Seq::empty() + lines =~= lines);
    lemma_assembled(s);
}

spec fn among(line: Seq<char>, lines: Seq<Seq<char>>, n: int) -> bool {
    exists|j: int| 0 <= j < n && j < lines.len() && #[trigger] lines[j] == line
}

/// The lines that stay so far are lines in front of `at`, and all but the last of
/// them are lines in front of that.
spec fn taken_in_order(lines: Seq<Seq<char>>, at: int, so_far: Seq<Seq<char>>) -> bool {
    &&& forall|k: int| 0 <= k < so_far.len() ==> among(#[trigger] so_far[k], lines, at)
    &&& forall|k: int| 0 <= k < so_far.len() - 1 ==> among(#[trigger] so_far[k], lines, at - 1)
}

proof fn lemma_among(line: Seq<char>, lines: Seq<Seq<char>>, n: int, m: int)
    requires
        among(line, lines, n),
        n <= m,
    ensures
        among(line, lines, m),
{
    let j = choose|j: int| 0 <= j < n && j < lines.len() && #[trigger] lines[j] == line;
    assert(lines[j] == line);
}

proof fn lemma_taken_later(lines: Seq<Seq<char>>, at: int, then: int, so_far: Seq<Seq<char>>)
    requires
        taken_in_order(lines, at, so_far),
        at <= then,
    ensures
        taken_in_order(lines, then, so_far),
{
    assert forall|k: int| 0 <= k < so_far.len() implies among(
        #[trigger] so_far[k],
        lines,
        then,
    ) by {
        lemma_among(so_far[k], lines, at, then);
    }
    assert forall|k: int| 0 <= k < so_far.len() - 1 implies among(
        #[trigger] so_far[k],
        lines,
        then - 1,
    ) by {
        lemma_among(so_far[k], lines, at - 1, then - 1);
    }
}

proof fn lemma_kept_in_order(lines: Seq<Seq<char>>, at: int, so_far: Seq<Seq<char>>)
    requires
        0 <= at <= lines.len(),
        taken_in_order(lines, at, so_far),
    ensures
        taken_in_order(lines, lines.len() as int, kept_from(lines, at, so_far)),
    decreases lines.len() - at,
{
    if at < lines.len() {
        lemma_block_end(lines, at + 1);
        if is_marker(lines[at]) {
            let end = block_end(lines, at + 1);
            lemma_taken_later(lines, at, end, so_far);
            let less = without_empty_end(so_far);
            assert forall|k: int| 0 <= k < less.len() implies among(
                #[trigger] less[k],
                lines,
                end,
            ) by {
                assert(less[k] == so_far[k]);
            }
            assert forall|k: int| 0 <= k < less.len() - 1 implies among(
                #[trigger] less[k],
                lines,
                end - 1,
            ) by {
                assert(less[k] == so_far[k]);
            }
            lemma_kept_in_order(lines, end, less);
        } else {
            let more = so_far.push(lines[at]);
            assert forall|k: int| 0 <= k < more.len() implies among(
                #[trigger] more[k],
                lines,
                at + 1,
            ) by {
                if k < so_far.len() {
                    assert(more[k] == so_far[k]);
                    lemma_among(so_far[k], lines, at, at + 1);
                } else {
                    assert(lines[at] == more[k]);
                }
            }
            assert forall|k: int| 0 <= k < more.len() - 1 implies among(
                #[trigger] more[k],
                lines,
                at,
            ) by {
                assert(more[k] == so_far[k]);
            }
            lemma_kept_in_order(lines, at + 1, more);
        }
    }
}

proof fn lemma_line_has_no_feed(s: Seq<char>, k: int)
    requires
        0 <= k < text::text_lines(s).len(),
    ensures
        !text::text_lines(s)[k].contains('\n'),
{
    text::lemma_fields_nonempty(s, '\n');
    text::lemma_field_has_no_separator(s, '\n', k);
    let row = text::fields(s, '\n')[k];
    let line = text::text_lines(s)[k];
    assert forall|i: int| 0 <= i < line.len() implies line[i] != '\n' by {
        assert(line[i] == row[i]);
    }
}

/// Cleaning a text again changes nothing. This takes that no line ends with a
/// carriage return in front of its line ending.
pub proof fn cleaning_twice_changes_nothing(s: Seq<char>)
    requires
        forall|i: int|
            0 <= i < text::text_lines(s).len() - (if ended(s) {
                0int
            } else {
                1
            }) ==> !ends_with_return(#[trigger] text::text_lines(s)[i]),
    ensures
        cleaned(cleaned(s)) == cleaned(s),
{
    reveal_strlit("\n");
    assert("\n"@ =~= seq!['\n']);
    let lines = text::text_lines(s);
    let stay = kept(lines);
    let out = cleaned(s);
    lemma_kept_in_order(lines, 0, Seq::empty());
    no_block_is_left(lines);
    assert forall|k: int| 0 <= k < stay.len() implies !(#[trigger] stay[k]).contains('\n') by {
        assert(among(stay[k], lines, lines.len() as int));
        let j = choose|j: int|
            0 <= j < lines.len() && j < lines.len() && #[trigger] lines[j] == stay[k];
        lemma_line_has_no_feed(s, j);
    }
    let body = text::joined(stay, "\n"@);
    if stay.len() > 0 {
        text::lemma_fields_of_joined(stay, '\n');
    } else {
        assert(body =~= Seq::empty());
        assert(text::fields(body, '\n') =~= seq![Seq::<char>::empty()]);
    }
    let rows = text::fields(out, '\n');
    let body_rows = text::fields(body, '\n');
    if ended(s) {
        text::lemma_fields_concat(body, '\n', Seq::empty());
        assert(out =~= body + seq!['\n'] + Seq::empty());
        assert(text::fields(Seq::empty(), '\n') =~= seq![Seq::<char>::empty()]);
        assert(rows =~= body_rows + seq![Seq::<char>::empty()]);
    } else {
        assert(out =~= body);
    }
    assert forall|k: int| 0 <= k < rows.len() - 1 implies !ends_with_return(#[trigger] rows[k]) by {
        if stay.len() > 0 {
            assert(rows[k] == stay[k]);
            if ended(s) {
                assert(among(stay[k], lines, lines.len() as int));
            } else {
                assert(among(stay[k], lines, lines.len() - 1));
            }
        }
    }
    lemma_empty_is_no_marker();
    assert forall|k: int| 0 <= k < text::text_lines(out).len() implies !is_marker(
        #[trigger] text::text_lines(out)[k],
    ) by {
        text::lemma_fields_nonempty(out, '\n');
        assert(text::text_lines(out)[k] == rows[k]);
        if stay.len() > 0 && k < stay.len() {
            assert(rows[k] == stay[k]);
        } else {
            assert(rows[k].len() == 0);
            assert(rows[k] =~= Seq::empty());
        }
    }
    other_texts_stay(out);
}

proof fn lemma_empty_is_no_marker()
    ensures
        !is_marker(Seq::empty()),
{
    reveal_strlit("# remux");
}

/// The lines from a marker on that go: those that are blank, and one that speaks of
/// `.remux`, if it comes next.
proof fn lemma_block_ends(lines: Seq<Seq<char>>, at: int, end: int)
    requires
        0 <= at <= end <= lines.len(),
        forall|i: int| at <= i < end ==> text::trimmed(#[trigger] lines[i]).len() == 0,
        end < lines.len() ==> text::trimmed(lines[end]).len() > 0,
    ensures
        block_end(lines, at) == if end < lines.len() && text::occurs(lines[end], ".remux"@) {
            end + 1
        } else {
            end
        },
    decreases end - at,
{
    if at < end {
        lemma_block_ends(lines, at + 1, end);
    }
}

/// A marker takes with it the blank lines behind it, the line that speaks of `.remux` where
/// that comes next, and one empty line before it; all other lines stay. A marker is the
/// comment `# remux` with any blanks around it.
pub proof fn marker_takes_its_block(
    front: Seq<Seq<char>>,
    left: Seq<char>,
    right: Seq<char>,
    blanks: Seq<Seq<char>>,
    entry: Option<Seq<char>>,
    rest: Seq<Seq<char>>,
)
    requires
        unmarked(front),
        unmarked(rest),
        text::is_blank(left),
        text::is_blank(right),
        forall|i: int| 0 <= i < blanks.len() ==> text::is_blank(#[trigger] blanks[i]),
        entry matches Some(e) ==> text::occurs(e, ".remux"@),
        entry is None && rest.len() > 0 ==> {
            &&& exists|i: int| 0 <= i < rest[0].len() && !text::is_space(#[trigger] rest[0][i])
            &&& !text::occurs(rest[0], ".remux"@)
        },
    ensures
        ({
            let marker = left + "# remux"@ + right;
            let block = seq![marker] + blanks + (match entry {
                Some(e) => seq![e],
                None => Seq::empty(),
            });
            let stays = if front.len() > 0 && front.last().len() == 0 {
                front.drop_last()
            } else {
                front
            };
            kept(front + block + rest) == stays + rest
        }),
{
    reveal_strlit(".remux");
    reveal_strlit("# remux");
    let marker = left + "# remux"@ + right;
    text::trimming_takes_the_blanks_around(left, "# remux"@, right);
    let tail = match entry {
        Some(e) => seq![e],
        None => Seq::empty(),
    };
    let block = seq![marker] + blanks + tail;
    let lines = front + block + rest;
    let n = front.len() as int;
    let end = n + 1 + blanks.len();
    assert(lines =~= front + (block + rest));
    assert(front.take(0) =~= Seq::empty());
    lemma_kept_front(front, block + rest, 0);
    assert(lines[n] == marker);
    assert forall|i: int|
        n + 1 <= i < end implies text::trimmed(#[trigger] lines[i]).len() == 0 by {
        let line = blanks[i - n - 1];
        assert(lines[i] == line);
        text::trimming_takes_the_blanks_around(line, Seq::empty(), Seq::empty());
        assert(line + Seq::<char>::empty() + Seq::<char>::empty() =~= line);
    }
    match entry {
        Some(e) => {
            assert(lines[end] == e);
            let at = choose|at: int| text::occurs_at(e, ".remux"@, at);
            assert(e.subrange(at, at + 6)[0] == '.');
            text::lemma_trimmed_nonempty(e, at);
            lemma_block_ends(lines, n + 1, end);
            assert(lines.skip(end + 1) =~= rest);
            lemma_kept_rest(lines, end + 1, without_empty_end(front));
        },
        None => {
            assert(block =~= seq![marker] + blanks);
            if rest.len() > 0 {
                assert(lines[end] == rest[0]);
                let i = choose|i: int|
                    0 <= i < rest[0].len() && !text::is_space(#[trigger] rest[0][i]);
                text::lemma_trimmed_nonempty(rest[0], i);
            }
            lemma_block_ends(lines, n + 1, end);
            assert(lines.skip(end) =~= rest);
            lemma_kept_rest(lines, end, without_empty_end(front));
        },
    }
}

/// Only `y` and `yes` mean yes, in whatever case and with any blanks around them.
pub proof fn only_yes_means_yes(a: Seq<char>, word: Seq<char>, b: Seq<char>)
    requires
        text::is_blank(a),
        text::is_blank(b),
        word.len() > 0 ==> !text::is_space(word[0]) && !text::is_space(word.last()),
    ensures
        confirmed(a + word + b) <==> text::lowered(word) == "y"@ || text::lowered(word) == "yes"@,
{
    text::trimming_takes_the_blanks_around(a, word, b);
}

/// The files of all shells are looked at, in the home directory; without one there is none.
pub proof fn all_shells_are_looked_at(home: Seq<char>)
    requires
        home.len() > 0,
    ensures
        rc_paths(Seq::empty()).len() == 0,
        rc_paths(home).len() == 5,
        rc_paths(home).contains(home + "/.zshrc"@),
        rc_paths(home).contains(home + "/.bashrc"@),
        rc_paths(home).contains(home + "/.bash_profile"@),
        rc_paths(home).contains(home + "/.profile"@),
        rc_paths(home).contains(home + "/.config/fish/config.fish"@),
{
    let paths = rc_paths(home);
    assert(paths[0] == home + "/.zshrc"@);
    assert(paths[1] == home + "/.bashrc"@);
    assert(paths[2] == home + "/.bash_profile"@);
    assert(paths[3] == home + "/.profile"@);
    assert(paths[4] == home + "/.config/fish/config.fish"@);
}

/// The user is asked with the directory that goes, and no answer means no.
pub proof fn question_names_what_goes(home: Seq<char>)
    ensures
        text::occurs(prompt_text(home), home),
        "[y/N]: "@.is_suffix_of(prompt_text(home)),
{
    reveal_strlit(" and all its contents.\nContinue? [y/N]: ");
    reveal_strlit("[y/N]: ");
    let t = prompt_text(home);
    let n = "This will remove "@.len() as int;
    assert(t.subrange(n, n + home.len()) =~= home);
    assert(text::occurs_at(t, home, n));
    assert(t.subrange(t.len() - 7, t.len() as int) =~= "[y/N]: "@);
}

} // verus!
