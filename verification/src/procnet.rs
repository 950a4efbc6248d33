//! Statistics of network interfaces, as the kernel lists them.
//!
//! The list has two lines of headings, then a line for each interface: its name
//! and a colon, eight numbers on what it received, and as many on what it sent.

use vstd::prelude::*;

use crate::text::{self, is_space, is_white, split_at};

verus! {

/// Traffic through an interface.
#[derive(Clone, Copy, Debug, PartialEq, Eq, Structural)]
pub struct InterfaceStats {
    pub rx_bytes: u64,
    pub rx_packets: u64,
    pub rx_errors: u64,
    pub rx_dropped: u64,
    pub tx_bytes: u64,
    pub tx_packets: u64,
    pub tx_errors: u64,
    pub tx_dropped: u64,
}

/// Lines of headings in front of the interfaces.
pub const HEADING_LINES: usize = 2;

/// How many fields a line needs to count.
pub const LEAST_FIELDS: usize = 13;

/// The fields of a line: what stands between white space.
pub open spec fn fields(line: Seq<char>) -> Seq<Seq<char>>
    decreases line.len(),
{
    if line.len() == 0 {
        Seq::empty()
    } else {
        let init = line.drop_last();
        let c = line.last();
        if is_space(c) {
            fields(init)
        } else if init.len() == 0 || is_space(init.last()) {
            fields(init).push(seq![c])
        } else {
            fields(init).drop_last().push(fields(init).last().push(c))
        }
    }
}

/// A name without the colons behind it.
pub open spec fn without_colons(name: Seq<char>) -> Seq<char>
    decreases name.len(),
{
    if name.len() > 0 && name.last() == ':' {
        without_colons(name.drop_last())
    } else {
        name
    }
}

/// A number; zero for what is none.
pub open spec fn number(field: Seq<char>) -> u64 {
    match text::parsed(field, u64::MAX as nat) {
        Some(value) => value as u64,
        None => 0,
    }
}

/// What a line's fields say.
pub open spec fn stats_of(fields: Seq<Seq<char>>) -> InterfaceStats {
    InterfaceStats {
        rx_bytes: number(fields[1]),
        rx_packets: number(fields[2]),
        rx_errors: number(fields[3]),
        rx_dropped: number(fields[4]),
        tx_bytes: number(fields[9]),
        tx_packets: number(fields[10]),
        tx_errors: number(fields[11]),
        tx_dropped: number(fields[12]),
    }
}

/// What the lines say of each interface. Of two lines for one interface the
/// later counts.
pub open spec fn table(lines: Seq<Seq<char>>) -> Map<Seq<char>, InterfaceStats>
    decreases lines.len(),
{
    if lines.len() == 0 {
        Map::empty()
    } else {
        let rest = table(lines.drop_last());
        let parts = fields(lines.last());
        if parts.len() >= LEAST_FIELDS {
            rest.insert(without_colons(parts[0]), stats_of(parts))
        } else {
            rest
        }
    }
}

/// The lines that follow the headings.
pub open spec fn lines_after_headings(content: Seq<char>) -> Seq<Seq<char>> {
    let lines = text::split(content, '\n');
    if lines.len() < HEADING_LINES {
        Seq::empty()
    } else {
        lines.skip(HEADING_LINES as int)
    }
}

/// What the list says of each interface.
pub open spec fn net_dev(content: Seq<char>) -> Map<Seq<char>, InterfaceStats> {
    table(lines_after_headings(content))
}

/// Statistics under the names of their interfaces.
pub type InterfaceEntries = Vec<(String, InterfaceStats)>;

/// What entries say of each interface.
pub open spec fn entries_map(entries: Seq<(String, InterfaceStats)>) -> Map<
    Seq<char>,
    InterfaceStats,
>
    decreases entries.len(),
{
    if entries.len() == 0 {
        Map::empty()
    } else {
        entries_map(entries.drop_last()).insert(entries.last().0@, entries.last().1)
    }
}

/// No interface has two entries.
pub open spec fn distinct_names(entries: Seq<(String, InterfaceStats)>) -> bool {
    forall|i: int, j: int|
        0 <= i < entries.len() && 0 <= j < entries.len() && (#[trigger] entries[i]).0@ == (
        #[trigger] entries[j]).0@ ==> i == j
}

proof fn lemma_entries_map(entries: Seq<(String, InterfaceStats)>, name: Seq<char>)
    ensures
        entries_map(entries).contains_key(name) <==> exists|i: int|
            0 <= i < entries.len() && (#[trigger] entries[i]).0@ == name,
    decreases entries.len(),
{
    if entries.len() > 0 {
        let init = entries.drop_last();
        lemma_entries_map(init, name);
        if entries_map(init).contains_key(name) {
            let i = choose|i: int| 0 <= i < init.len() && (#[trigger] init[i]).0@ == name;
            assert(entries[i].0@ == name);
        }
        if exists|i: int| 0 <= i < entries.len() && (#[trigger] entries[i]).0@ == name {
            let i = choose|i: int| 0 <= i < entries.len() && (#[trigger] entries[i]).0@ == name;
            if i < init.len() {
                assert(init[i].0@ == name);
            }
        }
        assert(entries[entries.len() - 1] == entries.last());
    }
}

proof fn lemma_removed_entry(entries: Seq<(String, InterfaceStats)>, at: int)
    requires
        0 <= at < entries.len(),
        distinct_names(entries),
    ensures
        entries_map(entries.remove(at)) == entries_map(entries).remove(entries[at].0@),
        distinct_names(entries.remove(at)),
    decreases entries.len(),
{
    let fewer = entries.remove(at);
    let name = entries[at].0@;
    assert forall|i: int| 0 <= i < fewer.len() implies #[trigger] fewer[i] == entries[if i < at {
        i
    } else {
        i + 1
    }] by {}
    let init = entries.drop_last();
    if at == entries.len() - 1 {
        assert(fewer =~= init);
        lemma_entries_map(init, name);
        if entries_map(init).contains_key(name) {
            let i = choose|i: int| 0 <= i < init.len() && (#[trigger] init[i]).0@ == name;
            assert(entries[i].0@ == entries[at].0@);
        }
        assert(entries_map(fewer) =~= entries_map(entries).remove(name));
    } else {
        assert forall|i: int, j: int|
            0 <= i < init.len() && 0 <= j < init.len() && (#[trigger] init[i]).0@ == (
            #[trigger] init[j]).0@ implies i == j by {
            assert(entries[i].0@ == entries[j].0@);
        }
        lemma_removed_entry(init, at);
        assert(fewer.drop_last() =~= init.remove(at));
        assert(fewer.last() == entries.last());
        assert(entries[entries.len() - 1].0@ != entries[at].0@);
        assert(entries_map(fewer) =~= entries_map(entries).remove(name));
    }
}

/// Where the entry of an interface stands.
fn find_entry(entries: &InterfaceEntries, name: &String) -> (found: Option<usize>)
    ensures
        match found {
            Some(i) => i < entries@.len() && entries@[i as int].0@ == name@,
            None => forall|j: int| 0 <= j < entries@.len() ==> (#[trigger] entries@[j]).0@ != name@,
        },
{
    let mut i: usize = 0;
    while i < entries.len()
        invariant
            i <= entries@.len(),
            forall|j: int| 0 <= j < i ==> (#[trigger] entries@[j]).0@ != name@,
        decreases entries@.len() - i,
    {
        if entries[i].0 == *name {
            return Some(i);
        }
        i = i + 1;
    }
    None
}

/// Enter the statistics of an interface, in place of earlier ones.
fn enter(entries: &mut InterfaceEntries, name: String, stats: InterfaceStats)
    requires
        distinct_names(old(entries)@),
    ensures
        distinct_names(final(entries)@),
        entries_map(final(entries)@) == entries_map(old(entries)@).insert(name@, stats),
{
    let ghost before = entries@;
    match find_entry(entries, &name) {
        Some(i) => {
            let _ = entries.remove(i);
            proof {
                lemma_removed_entry(before, i as int);
            }
        },
        None => {
            proof {
                lemma_entries_map(before, name@);
            }
        },
    }
    let ghost kept = entries@;
    let ghost shown = name@;
    proof {
        lemma_entries_map(kept, shown);
    }
    entries.push((name, stats));
    proof {
        assert(entries@.drop_last() =~= kept);
        assert(entries_map(entries@) =~= entries_map(before).insert(shown, stats));
        assert forall|a: int, b: int|
            0 <= a < entries@.len() && 0 <= b < entries@.len() && (#[trigger] entries@[a]).0@ == (
            #[trigger] entries@[b]).0@ implies a == b by {
            if a < kept.len() {
                assert(kept[a] == entries@[a]);
            }
            if b < kept.len() {
                assert(kept[b] == entries@[b]);
            }
        }
    }
}

/// The fields of a line.
fn fields_of(line: &[char]) -> (parts: Vec<Vec<char>>)
    ensures
        text::views(parts@) == fields(line@),
{
    let mut parts: Vec<Vec<char>> = Vec::new();
    let mut part: Vec<char> = Vec::new();
    let mut i: usize = 0;
    assert(line@.take(0) =~= Seq::<char>::empty());
    assert(text::views(parts@) =~= fields(line@.take(0)));
    while i < line.len()
        invariant
            i <= line@.len(),
            part@.len() == 0 <==> i == 0 || is_space(line@[i - 1]),
            part@.len() == 0 ==> text::views(parts@) == fields(line@.take(i as int)),
            part@.len() > 0 ==> text::views(parts@).push(part@) == fields(
                line@.take(i as int),
            ),
        decreases line@.len() - i,
    {
        let c = line[i];
        let ghost before = text::views(parts@);
        let ghost current = part@;
        proof {
            let now = line@.take(i + 1);
            assert(now.drop_last() =~= line@.take(i as int));
            assert(now.last() == c);
            if i > 0 {
                assert(line@.take(i as int).last() == line@[i - 1]);
            }
            assert(before.push(current).drop_last() =~= before);
        }
        if is_white(c) {
            if part.len() > 0 {
                let done = part;
                part = Vec::new();
                parts.push(done);
                assert(text::views(parts@) =~= before.push(current));
            }
        } else {
            part.push(c);
            proof {
                if current.len() == 0 {
                    assert(part@ =~= seq![c]);
                }
            }
        }
        i = i + 1;
    }
    assert(line@.take(i as int) =~= line@);
    if part.len() > 0 {
        let ghost before = text::views(parts@);
        let ghost current = part@;
        parts.push(part);
        assert(text::views(parts@) =~= before.push(current));
    }
    parts
}

fn trim_colons(name: &Vec<char>) -> (out: String)
    ensures
        out@ == without_colons(name@),
{
    let mut len: usize = name.len();
    assert(name@.take(len as int) =~= name@);
    while len > 0 && name[len - 1] == ':'
        invariant
            len <= name@.len(),
            without_colons(name@.take(len as int)) == without_colons(name@),
        decreases len,
    {
        assert(name@.take(len as int).drop_last() =~= name@.take(len - 1));
        len = len - 1;
    }
    let mut kept: Vec<char> = Vec::new();
    let mut i: usize = 0;
    while i < len
        invariant
            i <= len <= name@.len(),
            kept@ == name@.take(i as int),
        decreases len - i,
    {
        kept.push(name[i]);
        i = i + 1;
        assert(kept@ =~= name@.take(i as int));
    }
    text::from_chars(&kept)
}

fn number_of(field: &Vec<char>) -> (value: u64)
    ensures
        value == number(field@),
{
    match text::parse_number(field, u64::MAX) {
        Some(value) => value,
        None => 0,
    }
}

/// Read the kernel's list of network interfaces.
pub fn parse_net_dev(content: &str) -> (entries: InterfaceEntries)
    ensures
        entries_map(entries@) == net_dev(content@),
        distinct_names(entries@),
{
    let chars = text::to_chars(content);
    let lines = split_at(&chars, '\n');
    let ghost all = text::split(content@, '\n');
    let mut entries: InterfaceEntries = Vec::new();
    if lines.len() < HEADING_LINES {
        return entries;
    }
    let mut i: usize = HEADING_LINES;
    let ghost body = all.skip(HEADING_LINES as int);
    proof {
        assert(text::views(lines@).len() == lines@.len());
        assert(body.take(0) =~= Seq::<Seq<char>>::empty());
    }
    while i < lines.len()
        invariant
            HEADING_LINES <= i <= lines@.len(),
            all == text::views(lines@),
            body == all.skip(HEADING_LINES as int),
            distinct_names(entries@),
            entries_map(entries@) == table(body.take(i - HEADING_LINES)),
        decreases lines@.len() - i,
    {
        let parts = fields_of(&lines[i]);
        proof {
            let now = body.take(i - HEADING_LINES + 1);
            assert(now.drop_last() =~= body.take(i - HEADING_LINES));
            assert(now.last() == all[i as int]);
            assert(all[i as int] == lines@[i as int]@);
            assert(fields(lines@[i as int]@).len() == parts@.len());
            assert forall|k: int| 0 <= k < parts@.len() implies (#[trigger] parts@[k])@ == fields(
                lines@[i as int]@,
            )[k] by {
                assert(text::views(parts@)[k] == parts@[k]@);
            }
        }
        if parts.len() >= LEAST_FIELDS {
            let name = trim_colons(&parts[0]);
            let stats = InterfaceStats {
                rx_bytes: number_of(&parts[1]),
                rx_packets: number_of(&parts[2]),
                rx_errors: number_of(&parts[3]),
                rx_dropped: number_of(&parts[4]),
                tx_bytes: number_of(&parts[9]),
                tx_packets: number_of(&parts[10]),
                tx_errors: number_of(&parts[11]),
                tx_dropped: number_of(&parts[12]),
            };
            enter(&mut entries, name, stats);
        }
        i = i + 1;
    }
    assert(body.take(i - HEADING_LINES) =~= body);
    entries
}

/// A line of words, each behind its gap.
pub open spec fn laid_out(gaps: Seq<Seq<char>>, words: Seq<Seq<char>>) -> Seq<char>
    decreases words.len(),
{
    if words.len() == 0 {
        Seq::empty()
    } else {
        laid_out(gaps.drop_last(), words.drop_last()) + gaps.last() + words.last()
    }
}

/// The gaps are white space, and only the first can be empty; the words have none,
/// and are not empty.
pub open spec fn is_layout(gaps: Seq<Seq<char>>, words: Seq<Seq<char>>) -> bool {
    &&& gaps.len() == words.len()
    &&& forall|i: int, k: int|
        0 <= i < gaps.len() && 0 <= k < gaps[i].len() ==> is_space(#[trigger] gaps[i][k])
    &&& forall|i: int| 0 < i < gaps.len() ==> (#[trigger] gaps[i]).len() > 0
    &&& forall|i: int, k: int|
        0 <= i < words.len() && 0 <= k < words[i].len() ==> !is_space(#[trigger] words[i][k])
    &&& forall|i: int| 0 <= i < words.len() ==> (#[trigger] words[i]).len() > 0
}

proof fn lemma_fields_gap(line: Seq<char>, gap: Seq<char>)
    requires
        forall|k: int| 0 <= k < gap.len() ==> is_space(#[trigger] gap[k]),
    ensures
        fields(line + gap) == fields(line),
    decreases gap.len(),
{
    if gap.len() == 0 {
        assert(line + gap =~= line);
    } else {
        let init = gap.drop_last();
        assert forall|k: int| 0 <= k < init.len() implies is_space(#[trigger] init[k]) by {
            assert(init[k] == gap[k]);
        }
        lemma_fields_gap(line, init);
        assert((line + gap).drop_last() =~= line + init);
        assert((line + gap).last() == gap[gap.len() - 1]);
    }
}

proof fn lemma_fields_word(line: Seq<char>, word: Seq<char>)
    requires
        line.len() == 0 || is_space(line.last()),
        word.len() > 0,
        forall|k: int| 0 <= k < word.len() ==> !is_space(#[trigger] word[k]),
    ensures
        fields(line + word) == fields(line).push(word),
    decreases word.len(),
{
    let init = word.drop_last();
    let c = word.last();
    assert(c == word[word.len() - 1]);
    assert((line + word).drop_last() =~= line + init);
    assert((line + word).last() == c);
    if init.len() == 0 {
        assert(line + init =~= line);
        assert(word =~= seq![c]);
    } else {
        assert forall|k: int| 0 <= k < init.len() implies !is_space(#[trigger] init[k]) by {
            assert(init[k] == word[k]);
        }
        lemma_fields_word(line, init);
        assert((line + init).last() == word[init.len() - 1]);
        assert(fields(line).push(init).drop_last() =~= fields(line));
        assert(init.push(c) =~= word);
    }
}

proof fn lemma_fields_laid_out(gaps: Seq<Seq<char>>, words: Seq<Seq<char>>)
    requires
        is_layout(gaps, words),
    ensures
        fields(laid_out(gaps, words)) == words,
    decreases words.len(),
{
    if words.len() == 0 {
        assert(fields(laid_out(gaps, words)) =~= words);
    } else {
        let fewer_gaps = gaps.drop_last();
        let fewer = words.drop_last();
        let n = words.len() - 1;
        assert forall|i: int, k: int|
            0 <= i < fewer_gaps.len() && 0 <= k < fewer_gaps[i].len() implies is_space(
            #[trigger] fewer_gaps[i][k],
        ) by {
            assert(is_space(gaps[i][k]));
        }
        assert forall|i: int, k: int|
            0 <= i < fewer.len() && 0 <= k < fewer[i].len() implies !is_space(
            #[trigger] fewer[i][k],
        ) by {
            assert(!is_space(words[i][k]));
        }
        assert forall|i: int| 0 < i < fewer_gaps.len() implies (
        #[trigger] fewer_gaps[i]).len() > 0 by {
            assert(gaps[i].len() > 0);
        }
        assert forall|i: int| 0 <= i < fewer.len() implies (#[trigger] fewer[i]).len() > 0 by {
            assert(words[i].len() > 0);
        }
        lemma_fields_laid_out(fewer_gaps, fewer);
        let before = laid_out(fewer_gaps, fewer);
        assert forall|k: int| 0 <= k < gaps[n].len() implies is_space(#[trigger] gaps[n][k]) by {}
        lemma_fields_gap(before, gaps[n]);
        let line = before + gaps[n];
        if n == 0 {
            assert(before =~= Seq::<char>::empty());
            if line.len() > 0 {
                assert(line.last() == gaps[n][gaps[n].len() - 1]);
            }
        } else {
            assert(gaps[n].len() > 0);
            assert(line.last() == gaps[n][gaps[n].len() - 1]);
        }
        assert forall|k: int| 0 <= k < words[n].len() implies !is_space(
            #[trigger] words[n][k],
        ) by {}
        assert(words[n].len() > 0);
        lemma_fields_word(line, words[n]);
        assert(fewer.push(words[n]) =~= words);
    }
}

/// Where there are at most two lines, both are headings, and there is no interface.
pub proof fn headings_are_no_interfaces(content: &str, entries: InterfaceEntries, line: Seq<char>, next: Seq<char>)
    requires
        call_ensures(parse_net_dev, (content,), entries),
        !line.contains('\n') && !next.contains('\n'),
        content@ == line || content@ == line + seq!['\n'] + next,
    ensures
        entries@.len() == 0,
{
    text::lemma_split_none(line, '\n');
    text::lemma_split_last(line, next, '\n');
    let lines = lines_after_headings(content@);
    assert(lines.len() == 0);
    assert(table(lines) =~= Map::<Seq<char>, InterfaceStats>::empty());
    if entries@.len() > 0 {
        lemma_entries_map(entries@, entries@[0].0@);
    }
}

/// One more line behind the headings adds what it says of its interface, in place of
/// what was said before, and leaves the others: of the numbers behind the name, the
/// first four are on what was received, and the ninth to the twelfth on what was
/// sent. However much white space stands between the words, each number is read as
/// numbers are; what is none counts as zero. A line with fewer than 13 words adds
/// nothing.
pub proof fn every_line_adds_its_interface(
    content: &str,
    entries: InterfaceEntries,
    more: &str,
    more_entries: InterfaceEntries,
    gaps: Seq<Seq<char>>,
    words: Seq<Seq<char>>,
    tail: Seq<char>,
    name: Seq<char>,
    colons: Seq<char>,
    slices: Seq<&[char]>,
    numbers: Seq<Option<u64>>,
)
    requires
        call_ensures(parse_net_dev, (content,), entries),
        content@.contains('\n'),
        call_ensures(parse_net_dev, (more,), more_entries),
        is_layout(gaps, words),
        forall|k: int| 0 <= k < tail.len() ==> is_space(#[trigger] tail[k]),
        !(laid_out(gaps, words) + tail).contains('\n'),
        more@ == content@ + seq!['\n'] + laid_out(gaps, words) + tail,
        words.len() > 0 ==> words[0] == name + colons,
        forall|k: int| 0 <= k < colons.len() ==> #[trigger] colons[k] == ':',
        name.len() > 0 ==> name.last() != ':',
        forall|i: int|
            0 <= i < words.len() ==> (#[trigger] slices[i])@ == words[i] && call_ensures(
                text::parse_number,
                (slices[i], u64::MAX),
                numbers[i],
            ),
    ensures
        words.len() < 13 ==> forall|other: Seq<char>, stats: InterfaceStats|
            #[trigger] listed(more_entries@, other, stats) <==> listed(entries@, other, stats),
        words.len() >= 13 ==> forall|other: Seq<char>, stats: InterfaceStats|
            other != name ==> (#[trigger] listed(more_entries@, other, stats) <==> listed(
                entries@,
                other,
                stats,
            )),
        words.len() >= 13 ==> exists|i: int|
            {
                &&& 0 <= i < more_entries@.len()
                &&& (#[trigger] more_entries@[i]).0@ == name
                &&& more_entries@[i].1.rx_bytes == numbers[1].unwrap_or(0)
                &&& more_entries@[i].1.rx_packets == numbers[2].unwrap_or(0)
                &&& more_entries@[i].1.rx_errors == numbers[3].unwrap_or(0)
                &&& more_entries@[i].1.rx_dropped == numbers[4].unwrap_or(0)
                &&& more_entries@[i].1.tx_bytes == numbers[9].unwrap_or(0)
                &&& more_entries@[i].1.tx_packets == numbers[10].unwrap_or(0)
                &&& more_entries@[i].1.tx_errors == numbers[11].unwrap_or(0)
                &&& more_entries@[i].1.tx_dropped == numbers[12].unwrap_or(0)
            },
        forall|i: int, j: int|
            0 <= i < j < more_entries@.len() ==> (#[trigger] more_entries@[i]).0@ != (
            #[trigger] more_entries@[j]).0@,
{
    let line = laid_out(gaps, words) + tail;
    assert(more@ =~= content@ + seq!['\n'] + line);
    text::lemma_split_last(content@, line, '\n');
    lemma_split_twice(content@, '\n');
    lemma_fields_laid_out(gaps, words);
    lemma_fields_gap(laid_out(gaps, words), tail);
    lemma_without_colons(name, colons);
    let lines = lines_after_headings(content@);
    let more_lines = lines_after_headings(more@);
    assert(more_lines =~= lines.push(line));
    assert(more_lines.drop_last() =~= lines);
    assert(more_lines.last() == line);
    let was = entries_map(entries@);
    let now = entries_map(more_entries@);
    assert forall|other: Seq<char>, stats: InterfaceStats|
        #[trigger] listed(more_entries@, other, stats) <==> now.contains_key(other) && now[other]
            == stats by {
        lemma_listed(more_entries@, other, stats);
    }
    assert forall|other: Seq<char>, stats: InterfaceStats|
        #[trigger] listed(entries@, other, stats) <==> was.contains_key(other) && was[other]
            == stats by {
        lemma_listed(entries@, other, stats);
    }
    if words.len() >= 13 {
        assert(now.contains_key(name) && now[name] == stats_of(words));
        assert(listed(more_entries@, name, stats_of(words)));
        let i = choose|i: int|
            0 <= i < more_entries@.len() && (#[trigger] more_entries@[i]).0@ == name
                && more_entries@[i].1 == stats_of(words);
        assert(slices[1]@ == words[1]);
        assert(slices[2]@ == words[2]);
        assert(slices[3]@ == words[3]);
        assert(slices[4]@ == words[4]);
        assert(slices[9]@ == words[9]);
        assert(slices[10]@ == words[10]);
        assert(slices[11]@ == words[11]);
        assert(slices[12]@ == words[12]);
        assert(more_entries@[i].0@ == name);
    }
}

/// There is an entry for the interface, and it is this.
pub open spec fn listed(
    entries: Seq<(String, InterfaceStats)>,
    name: Seq<char>,
    stats: InterfaceStats,
) -> bool {
    exists|i: int|
        0 <= i < entries.len() && (#[trigger] entries[i]).0@ == name && entries[i].1 == stats
}

pub(crate) proof fn lemma_listed(
    entries: Seq<(String, InterfaceStats)>,
    name: Seq<char>,
    stats: InterfaceStats,
)
    requires
        distinct_names(entries),
    ensures
        listed(entries, name, stats) <==> entries_map(entries).contains_key(name) && entries_map(
            entries,
        )[name] == stats,
    decreases entries.len(),
{
    if entries.len() > 0 {
        let init = entries.drop_last();
        let last = entries.last();
        assert(entries[entries.len() - 1] == last);
        assert forall|i: int, j: int|
            0 <= i < init.len() && 0 <= j < init.len() && (#[trigger] init[i]).0@ == (
            #[trigger] init[j]).0@ implies i == j by {
            assert(entries[i].0@ == entries[j].0@);
        }
        lemma_listed(init, name, stats);
        if listed(entries, name, stats) {
            let i = choose|i: int|
                0 <= i < entries.len() && (#[trigger] entries[i]).0@ == name && entries[i].1
                    == stats;
            if i < init.len() {
                assert(init[i].0@ == name && init[i].1 == stats);
                assert(entries[i].0@ != entries[entries.len() - 1].0@);
            }
        }
        if last.0@ == name && last.1 == stats {
            assert(entries[entries.len() - 1].0@ == name);
        }
        if listed(init, name, stats) && last.0@ != name {
            let i = choose|i: int|
                0 <= i < init.len() && (#[trigger] init[i]).0@ == name && init[i].1 == stats;
            assert(entries[i].0@ == name && entries[i].1 == stats);
        }
    }
}

proof fn lemma_split_twice(content: Seq<char>, separator: char)
    requires
        content.contains(separator),
    ensures
        text::split(content, separator).len() >= 2,
    decreases content.len(),
{
    let i = choose|i: int| 0 <= i < content.len() && content[i] == separator;
    let init = content.drop_last();
    lemma_split_some(init, separator);
    if content.last() != separator {
        assert(init[i] == separator);
        lemma_split_twice(init, separator);
    }
}

proof fn lemma_split_some(content: Seq<char>, separator: char)
    ensures
        text::split(content, separator).len() >= 1,
    decreases content.len(),
{
    if content.len() > 0 {
        lemma_split_some(content.drop_last(), separator);
    }
}

proof fn lemma_without_colons(name: Seq<char>, colons: Seq<char>)
    requires
        forall|k: int| 0 <= k < colons.len() ==> #[trigger] colons[k] == ':',
        name.len() > 0 ==> name.last() != ':',
    ensures
        without_colons(name + colons) == name,
    decreases colons.len(),
{
    if colons.len() == 0 {
        assert(name + colons =~= name);
    } else {
        let fewer = colons.drop_last();
        assert forall|k: int| 0 <= k < fewer.len() implies #[trigger] fewer[k] == ':' by {
            assert(fewer[k] == colons[k]);
        }
        lemma_without_colons(name, fewer);
        assert((name + colons).drop_last() =~= name + fewer);
        assert((name + colons).last() == colons[colons.len() - 1]);
    }
}

} // verus!
