use vstd::prelude::*;
use crate::types::Card;
use std::path::PathBuf;
use crate::text::{
    chars_of, ends_with, find_char, last_index, parse_decimal,
    parse_unsigned, rfind_char, slice, split_chars, split_on, split_once, string_from_chars,
    trim, trim_chars, trim_end_char, trim_end_char_chars, views, decimal, is_digit, is_first_index,
    is_white_space, lemma_decimal_digits, lemma_decimal_round_trip, trim_end, trim_start,
};

verus! {

broadcast use vstd::string::group_string_axioms;

/// One line of a decklist: a card name and how many copies of it to print.
#[derive(Debug, Clone)]
pub struct DecklistEntry {
    pub card_name: String,
    pub count: u32,
}

/// The name and count of each entry, in order.
pub open spec fn entries_view(v: Seq<DecklistEntry>) -> Seq<(Seq<char>, nat)> {
    v.map_values(|e: DecklistEntry| (e.card_name@, e.count as nat))
}

// ---------------------------------------------------------------------------
// The decklist grammar
// ---------------------------------------------------------------------------

/// A copy count: what `str::parse::<u32>` accepts.
pub open spec fn count_of(s: Seq<char>) -> Option<nat> {
    parse_unsigned(s, u32::MAX as nat)
}

/// A blank line or a comment (`#...` or `//...`); `line` is already trimmed.
pub open spec fn is_skipped_line(line: Seq<char>) -> bool {
    ||| line.len() == 0
    ||| line[0] == '#'
    ||| (line.len() >= 2 && line[0] == '/' && line[1] == '/')
}

/// `4 Lightning Bolt` or `4x Lightning Bolt`: a count (with any number of
/// trailing `x`) before the first space, the name after it.
pub open spec fn leading_count(line: Seq<char>) -> Option<(Seq<char>, nat)> {
    match split_once(line, ' ') {
        Some((c, name)) => match count_of(c) {
            Some(n) => Some((trim(name), n)),
            None => if ends_with(c, seq!['x']) {
                match count_of(trim_end_char(c, 'x')) {
                    Some(n) => Some((trim(name), n)),
                    None => None,
                }
            } else {
                None
            },
        },
        None => None,
    }
}

/// `i` is the position of the last `" x"` in `s`.
pub open spec fn is_last_space_x(s: Seq<char>, i: int) -> bool {
    &&& 0 <= i && i + 1 < s.len()
    &&& s[i] == ' ' && s[i + 1] == 'x'
    &&& forall|k: int| i < k && k + 1 < s.len() ==> !(s[k] == ' ' && #[trigger] s[k + 1] == 'x')
}

/// The position of the last `" x"` in `s`, as `str::rsplit_once` finds it.
pub open spec fn last_space_x(s: Seq<char>) -> Option<int> {
    if exists|i: int| is_last_space_x(s, i) {
        Some(choose|i: int| is_last_space_x(s, i))
    } else {
        None
    }
}

/// `Lightning Bolt x4`: a count after the last `" x"`.
pub open spec fn trailing_count(line: Seq<char>) -> Option<(Seq<char>, nat)> {
    match last_space_x(line) {
        Some(i) => match count_of(line.skip(i + 2)) {
            Some(n) => Some((trim(line.take(i)), n)),
            None => None,
        },
        None => None,
    }
}

/// `Lightning Bolt (4)`: a line ending in `)` with a count between it and
/// the last `(`.
pub open spec fn paren_count(line: Seq<char>) -> Option<(Seq<char>, nat)> {
    if line.len() > 0 && line.last() == ')' {
        match last_index(line, '(') {
            Some(p) => match count_of(line.subrange(p + 1, line.len() - 1)) {
                Some(n) => Some((trim(line.take(p)), n)),
                None => None,
            },
            None => None,
        }
    } else {
        None
    }
}

/// The entry a trimmed, non-comment line gives: the first of the four
/// formats that fits, else the whole line as the name of a single copy.
pub open spec fn line_entry(line: Seq<char>) -> (Seq<char>, nat) {
    match leading_count(line) {
        Some(e) => e,
        None => match trailing_count(line) {
            Some(e) => e,
            None => match paren_count(line) {
                Some(e) => e,
                None => (line, 1),
            },
        },
    }
}

/// The entries of a decklist given as its lines, in order: each line is
/// trimmed, blank lines and comments give none.
pub open spec fn decklist_entries(lines: Seq<Seq<char>>) -> Seq<(Seq<char>, nat)>
    decreases lines.len(),
{
    if lines.len() == 0 {
        Seq::empty()
    } else {
        let rest = decklist_entries(lines.drop_last());
        let line = trim(lines.last());
        if is_skipped_line(line) {
            rest
        } else {
            rest.push(line_entry(line))
        }
    }
}

/// The entries of the decklist `text`. Its lines are the pieces between
/// `\n`s; since every line is trimmed, a `\r` before a `\n` and a final
/// empty piece make no difference, so this is what reading the text line
/// by line gives.
pub open spec fn parsed_decklist(text: Seq<char>) -> Seq<(Seq<char>, nat)> {
    decklist_entries(split_on(text, '\n'))
}

/// A line holding a count, a space and a card name reads as that many
/// copies of that card: `4 Lightning Bolt` is four copies of Lightning
/// Bolt. The line is no comment, and trimming leaves it as it is (the name
/// must not start or end with white space, which trimming would take off).
pub proof fn lemma_count_then_name(count: u32, name: Seq<char>)
    requires
        name.len() > 0,
        !is_white_space(name[0]),
        !is_white_space(name.last()),
    ensures
        ({
            let line = decimal(count as nat) + seq![' '] + name;
            &&& trim(line) == line
            &&& !is_skipped_line(line)
            &&& line_entry(line) == (name, count as nat)
        }),
{
    let d = decimal(count as nat);
    lemma_decimal_digits(count as nat);
    lemma_decimal_round_trip(count as nat, u32::MAX as nat);
    let line = d + seq![' '] + name;
    let k = d.len() as int;
    assert(line[k] == ' ');
    assert forall|j: int| 0 <= j < k implies line[j] != ' ' by {
        assert(line[j] == d[j]);
        assert(is_digit(d[j]));
    }
    assert(is_first_index(line, ' ', k));
    let c = choose|i: int| is_first_index(line, ' ', i);
    assert(c == k) by {
        if c < k {
            assert(line[c] != ' ');
        }
        if c > k {
            assert(line[k] != ' ');
        }
    }
    assert(line.take(k) == d);
    assert(line.skip(k + 1) == name);
    assert(trim_start(name) == name);
    assert(trim_end(name) == name);
    assert(line[0] == d[0]);
    assert(is_digit(d[0]));
    assert(line.last() == name.last());
    assert(trim_start(line) == line);
    assert(trim_end(line) == line);
}

// ---------------------------------------------------------------------------
// Parsing
// ---------------------------------------------------------------------------

/// Where the last `" x"` in `s` is.
fn rfind_space_x(s: &Vec<char>) -> (r: Option<usize>)
    ensures
        match r {
            Some(i) => last_space_x(s@) == Some(i as int) && i + 1 < s@.len(),
            None => last_space_x(s@).is_none(),
        },
{
    let mut i = s.len();
    while i > 1
        invariant
            i <= s@.len(),
            forall|k: int| i - 1 <= k && k + 1 < s@.len() ==> !(s@[k] == ' ' && #[trigger] s@[k + 1] == 'x'),
        decreases i,
    {
        if s[i - 2] == ' ' && s[i - 1] == 'x' {
            let j = i - 2;
            assert(is_last_space_x(s@, j as int));
            proof {
                let w = choose|w: int| is_last_space_x(s@, w);
                if w < j {
                    assert(!(s@[j as int] == ' ' && s@[j + 1] == 'x'));
                }
                if w > j {
                    assert(!(s@[w] == ' ' && s@[w + 1] == 'x'));
                }
            }
            return Some(j);
        }
        i = i - 1;
    }
    proof {
        if exists|w: int| is_last_space_x(s@, w) {
            let w = choose|w: int| is_last_space_x(s@, w);
            assert(s@[w] == ' ' && s@[w + 1] == 'x');
        }
    }
    None
}

/// A copy count, as `str::parse::<u32>` reads it.
fn parse_count(s: &Vec<char>) -> (r: Option<u32>)
    ensures
        match r {
            Some(n) => count_of(s@) == Some(n as nat),
            None => count_of(s@).is_none(),
        },
{
    match parse_decimal(s, u32::MAX as u64) {
        Some(v) => Some(v as u32),
        None => None,
    }
}

fn make_entry(name: &Vec<char>, count: u32) -> (e: DecklistEntry)
    ensures
        e.card_name@ == name@,
        e.count == count,
{
    DecklistEntry { card_name: string_from_chars(name), count }
}

/// Format `4 Name` / `4x Name`.
fn parse_leading_count(line: &Vec<char>) -> (r: Option<DecklistEntry>)
    ensures
        match r {
            Some(e) => leading_count(line@) == Some((e.card_name@, e.count as nat)),
            None => leading_count(line@).is_none(),
        },
{
    match find_char(line, ' ') {
        None => None,
        Some(i) => {
            assert(i < line.len());
            let c = slice(line, 0, i);
            let rest = slice(line, i + 1, line.len());
            let name = trim_chars(&rest);
            proof {
                assert(c@ == line@.take(i as int));
                assert(rest@ == line@.skip(i + 1));
                assert(split_once(line@, ' ') == Some((c@, rest@)));
            }
            match parse_count(&c) {
                Some(n) => Some(make_entry(&name, n)),
                None => {
                    if c.len() > 0 && c[c.len() - 1] == 'x' {
                        proof {
                            assert(c@.skip(c@.len() - 1) =~= seq!['x']);
                        }
                        let digits = trim_end_char_chars(&c, 'x');
                        match parse_count(&digits) {
                            Some(n) => Some(make_entry(&name, n)),
                            None => None,
                        }
                    } else {
                        proof {
                            if ends_with(c@, seq!['x']) {
                                assert(c@.skip(c@.len() - 1)[0] == c@[c@.len() - 1]);
                            }
                        }
                        None
                    }
                },
            }
        },
    }
}

/// Format `Name x4`.
fn parse_trailing_count(line: &Vec<char>) -> (r: Option<DecklistEntry>)
    ensures
        match r {
            Some(e) => trailing_count(line@) == Some((e.card_name@, e.count as nat)),
            None => trailing_count(line@).is_none(),
        },
{
    match rfind_space_x(line) {
        None => None,
        Some(i) => {
            assert(i + 1 < line.len());
            let tail = slice(line, i + 2, line.len());
            assert(tail@ == line@.skip(i + 2));
            match parse_count(&tail) {
                Some(n) => {
                    let head = slice(line, 0, i);
                    assert(head@ == line@.take(i as int));
                    let name = trim_chars(&head);
                    Some(make_entry(&name, n))
                },
                None => None,
            }
        },
    }
}

/// Format `Name (4)`.
fn parse_paren_count(line: &Vec<char>) -> (r: Option<DecklistEntry>)
    ensures
        match r {
            Some(e) => paren_count(line@) == Some((e.card_name@, e.count as nat)),
            None => paren_count(line@).is_none(),
        },
{
    let n = line.len();
    if n == 0 || line[n - 1] != ')' {
        return None;
    }
    match rfind_char(line, '(') {
        None => None,
        Some(p) => {
            let inner = slice(line, p + 1, n - 1);
            match parse_count(&inner) {
                Some(c) => {
                    let head = slice(line, 0, p);
                    assert(head@ == line@.take(p as int));
                    let name = trim_chars(&head);
                    Some(make_entry(&name, c))
                },
                None => None,
            }
        },
    }
}

/// The entry of a trimmed, non-comment line.
fn parse_line(line: &Vec<char>) -> (e: DecklistEntry)
    ensures
        (e.card_name@, e.count as nat) == line_entry(line@),
{
    if let Some(e) = parse_leading_count(line) {
        return e;
    }
    if let Some(e) = parse_trailing_count(line) {
        return e;
    }
    if let Some(e) = parse_paren_count(line) {
        return e;
    }
    make_entry(line, 1)
}

// ---------------------------------------------------------------------------
// Ordering the card list by a decklist
// ---------------------------------------------------------------------------

/// Ranks and cards as plain values.
pub open spec fn ranks(v: Seq<(usize, Card)>) -> Seq<(nat, Card)> {
    v.map_values(|e: (usize, Card)| (e.0 as nat, e.1))
}

/// The position of the first decklist match named `name`.
pub open spec fn name_rank(matched: Seq<(String, u32)>, name: Seq<char>) -> nat
    decreases matched.len(),
{
    if matched.len() == 0 {
        0
    } else if matched[0].0@ == name {
        0
    } else {
        1 + name_rank(matched.drop_first(), name)
    }
}

/// `x` put into the rank-ordered `r` after every card of no greater rank.
pub open spec fn insert_by_rank(r: Seq<(nat, Card)>, x: (nat, Card)) -> Seq<(nat, Card)>
    decreases r.len(),
{
    if r.len() == 0 {
        seq![x]
    } else if x.0 < r.last().0 {
        insert_by_rank(r.drop_last(), x).push(r.last())
    } else {
        r.push(x)
    }
}

/// The cards ordered by rank, cards of equal rank keeping their order.
pub open spec fn sort_by_rank(s: Seq<(nat, Card)>) -> Seq<(nat, Card)>
    decreases s.len(),
{
    if s.len() == 0 {
        s
    } else {
        insert_by_rank(sort_by_rank(s.drop_last()), s.last())
    }
}

/// The matched cards of the list, in list order, each with the copy count
/// of its match and the rank of its match's name in the decklist.
pub open spec fn matched_part(
    cards: Seq<Card>,
    card_match: Seq<Option<usize>>,
    matched: Seq<(String, u32)>,
) -> Seq<(nat, Card)>
    decreases cards.len(),
{
    if cards.len() == 0 {
        Seq::empty()
    } else {
        let rest = matched_part(cards.drop_last(), card_match.take(cards.len() - 1), matched);
        match card_match[cards.len() - 1] {
            Some(m) => rest.push(
                (
                    name_rank(matched, matched[m as int].0@),
                    cards.last().with_copy_count(matched[m as int].1),
                ),
            ),
            None => rest,
        }
    }
}

/// The cards of the list that were not matched, in list order.
pub open spec fn unmatched_part(cards: Seq<Card>, card_match: Seq<Option<usize>>) -> Seq<Card>
    decreases cards.len(),
{
    if cards.len() == 0 {
        Seq::empty()
    } else {
        let rest = unmatched_part(cards.drop_last(), card_match.take(cards.len() - 1));
        match card_match[cards.len() - 1] {
            Some(_) => rest,
            None => rest.push(cards.last()),
        }
    }
}

/// The card list ordered by a decklist: the matched cards first, in the
/// order their names first appear among the matches (cards matched to the
/// same name keep their order) and printed as often as the decklist says,
/// then the unmatched cards as they were.
pub open spec fn decklist_order(
    cards: Seq<Card>,
    card_match: Seq<Option<usize>>,
    matched: Seq<(String, u32)>,
) -> Seq<Card> {
    sort_by_rank(matched_part(cards, card_match, matched)).map_values(|e: (nat, Card)| e.1)
        + unmatched_part(cards, card_match)
}

/// A decklist entry matched to an image file: the card's name, how many
/// copies the decklist asks for, and the file.
#[derive(Debug, Clone)]
pub struct DecklistMatch {
    pub card_name: String,
    pub count: u32,
    pub matched_path: PathBuf,
}

/// Whether `PathBuf`'s `==` (std) holds of `a` and `b`.
pub uninterp spec fn spec_paths_equal(a: PathBuf, b: PathBuf) -> bool;

/// `PathBuf`'s `==` (std), which compares two paths component by
/// component; being an equivalence (`Eq`), it holds of a path and itself.
#[verifier::external_body]
fn paths_equal(a: &PathBuf, b: &PathBuf) -> (r: bool)
    ensures
        r == spec_paths_equal(*a, *b),
        *a == *b ==> r,
{
    a == b
}

/// The last of the `matched` entries whose file is `path`, if any: where
/// several entries name one file, the last one counts.
pub open spec fn last_path_match(matched: Seq<DecklistMatch>, path: PathBuf) -> Option<usize>
    decreases matched.len(),
{
    if matched.len() == 0 {
        None
    } else if spec_paths_equal(matched.last().matched_path, path) {
        Some((matched.len() - 1) as usize)
    } else {
        last_path_match(matched.drop_last(), path)
    }
}

/// For each card, the entry of `matched` whose file it is (see
/// `last_path_match`).
pub open spec fn path_matches(matched: Seq<DecklistMatch>, cards: Seq<Card>) -> Seq<Option<usize>> {
    cards.map_values(|c: Card| last_path_match(matched, c.path))
}

/// The name and copy count of each entry of `matched`.
pub open spec fn names_and_counts(matched: Seq<DecklistMatch>) -> Seq<(String, u32)> {
    matched.map_values(|m: DecklistMatch| (m.card_name, m.count))
}

/// The entry of `matched` whose file is `path`; see `last_path_match`.
pub fn find_path_match(matched: &Vec<DecklistMatch>, path: &PathBuf) -> (r: Option<usize>)
    ensures
        r == last_path_match(matched@, *path),
        r matches Some(m) ==> m < matched@.len(),
{
    let mut i = matched.len();
    assert(matched@.take(i as int) == matched@);
    while i > 0
        invariant
            i <= matched@.len(),
            last_path_match(matched@, *path) == last_path_match(matched@.take(i as int), *path),
        decreases i,
    {
        let ghost t = matched@.take(i as int);
        assert(t.last() == matched@[i - 1]);
        assert(t.drop_last() == matched@.take(i - 1));
        if paths_equal(&matched[i - 1].matched_path, path) {
            return Some(i - 1);
        }
        i = i - 1;
    }
    None
}

/// Pairs each card with the entry of `matched` whose file it is; see
/// `path_matches`.
pub fn match_cards_by_path(matched: &Vec<DecklistMatch>, cards: &Vec<Card>) -> (r: Vec<Option<usize>>)
    ensures
        r@ == path_matches(matched@, cards@),
        forall|i: int| 0 <= i < r@.len() ==> (#[trigger] r@[i] matches Some(m) ==> m < matched@.len()),
{
    let mut r: Vec<Option<usize>> = Vec::new();
    let n = cards.len();
    for i in 0..n
        invariant
            n == cards@.len(),
            r@ == path_matches(matched@, cards@.take(i as int)),
            forall|k: int| 0 <= k < r@.len() ==> (#[trigger] r@[k] matches Some(m) ==> m < matched@.len()),
    {
        let m = find_path_match(matched, &cards[i].path);
        r.push(m);
        assert(path_matches(matched@, cards@.take(i + 1)) == path_matches(matched@, cards@.take(i as int)).push(m));
    }
    assert(cards@.take(n as int) == cards@);
    r
}

// ---------------------------------------------------------------------------
// Pairing the matches a matching service proposes with the decklist and cards
// ---------------------------------------------------------------------------

/// The stem of the file name of `path` (`Path::file_stem`), where it is
/// valid UTF-8.
pub uninterp spec fn spec_path_file_stem(path: PathBuf) -> Option<Seq<char>>;

/// `Path::file_stem` (std) of `path`, then `OsStr::to_str`: the file name
/// without its last extension, `None` where the path has no file name or
/// the stem is not valid UTF-8.
#[verifier::external_body]
fn path_file_stem(path: &PathBuf) -> (r: Option<String>)
    ensures
        match r {
            Some(s) => spec_path_file_stem(*path) == Some(s@),
            None => spec_path_file_stem(*path).is_none(),
        },
{
    path.file_stem().and_then(|s| s.to_str()).map(|s| s.to_string())
}

/// The file stems of the cards that have one, in card order: the names
/// the matching service is shown.
pub open spec fn file_stem_list(cards: Seq<Card>) -> Seq<Seq<char>>
    decreases cards.len(),
{
    if cards.len() == 0 {
        Seq::empty()
    } else {
        let rest = file_stem_list(cards.drop_last());
        match spec_path_file_stem(cards.last().path) {
            Some(s) => rest.push(s),
            None => rest,
        }
    }
}

/// The file stems of `cards`; see `file_stem_list`.
pub fn card_file_stems(cards: &Vec<Card>) -> (r: Vec<String>)
    ensures
        r@.map_values(|s: String| s@) == file_stem_list(cards@),
{
    let mut r: Vec<String> = Vec::new();
    let n = cards.len();
    for i in 0..n
        invariant
            n == cards@.len(),
            r@.map_values(|s: String| s@) == file_stem_list(cards@.take(i as int)),
    {
        assert(cards@.take(i + 1).drop_last() == cards@.take(i as int));
        assert(cards@.take(i + 1).last() == cards@[i as int]);
        if let Some(stem) = path_file_stem(&cards[i].path) {
            let ghost before = r@.map_values(|s: String| s@);
            r.push(stem);
            assert(r@.map_values(|s: String| s@) == before.push(stem@));
        }
    }
    assert(cards@.take(n as int) == cards@);
    r
}

/// The copy count the decklist gives the name `name`: that of its last
/// entry of that name, if any.
pub open spec fn entry_count_for(entries: Seq<DecklistEntry>, name: Seq<char>) -> Option<u32>
    decreases entries.len(),
{
    if entries.len() == 0 {
        None
    } else if entries.last().card_name@ == name {
        Some(entries.last().count)
    } else {
        entry_count_for(entries.drop_last(), name)
    }
}

/// The file stem of each card (`None` where it has none).
pub open spec fn card_stems(cards: Seq<Card>) -> Seq<Option<Seq<char>>> {
    cards.map_values(|c: Card| spec_path_file_stem(c.path))
}

/// Optional strings as plain values.
pub open spec fn opt_views(v: Seq<Option<String>>) -> Seq<Option<Seq<char>>> {
    v.map_values(
        |o: Option<String>|
            match o {
                Some(s) => Some(s@),
                None => None,
            },
    )
}

/// The first position of `stems` that holds `stem`, if any.
pub open spec fn first_with_stem(stems: Seq<Option<Seq<char>>>, stem: Seq<char>) -> Option<usize>
    decreases stems.len(),
{
    if stems.len() == 0 {
        None
    } else {
        match first_with_stem(stems.drop_last(), stem) {
            Some(k) => Some(k),
            None => if stems.last() == Some(stem) {
                Some((stems.len() - 1) as usize)
            } else {
                None
            },
        }
    }
}

/// A proposed match that names a decklist card and a card image: which
/// proposal it is, the decklist's copy count for the name, and the card.
#[derive(Debug, Clone, Copy, PartialEq, Eq)]
pub struct AiPairing {
    pub reply: usize,
    pub count: u32,
    pub card: usize,
}

/// The proposals `replies` (card name, file stem) that name a decklist
/// entry and one of the cards' file stems `stems`, in order, each paired
/// with the entry's count (`entry_count_for`) and the first card of that
/// stem (`first_with_stem`); the other proposals are dropped.
pub open spec fn ai_pairings(
    entries: Seq<DecklistEntry>,
    stems: Seq<Option<Seq<char>>>,
    replies: Seq<(String, String)>,
) -> Seq<AiPairing>
    decreases replies.len(),
{
    if replies.len() == 0 {
        Seq::empty()
    } else {
        let rest = ai_pairings(entries, stems, replies.drop_last());
        let last = replies.last();
        match (entry_count_for(entries, last.0@), first_with_stem(stems, last.1@)) {
            (Some(count), Some(card)) => rest.push(
                AiPairing { reply: (replies.len() - 1) as usize, count, card },
            ),
            _ => rest,
        }
    }
}

fn count_for_name(entries: &Vec<DecklistEntry>, name: &String) -> (r: Option<u32>)
    ensures
        r == entry_count_for(entries@, name@),
{
    let mut i = entries.len();
    assert(entries@.take(i as int) == entries@);
    while i > 0
        invariant
            i <= entries@.len(),
            entry_count_for(entries@, name@) == entry_count_for(entries@.take(i as int), name@),
        decreases i,
    {
        let ghost t = entries@.take(i as int);
        assert(t.last() == entries@[i - 1]);
        assert(t.drop_last() == entries@.take(i - 1));
        if entries[i - 1].card_name == *name {
            return Some(entries[i - 1].count);
        }
        i = i - 1;
    }
    None
}

proof fn lemma_first_stem_none_prefix(stems: Seq<Option<Seq<char>>>, stem: Seq<char>, i: int)
    requires
        0 <= i <= stems.len(),
        forall|k: int| 0 <= k < i ==> #[trigger] stems[k] != Some(stem),
    ensures
        first_with_stem(stems.take(i), stem).is_none(),
    decreases i,
{
    if i > 0 {
        assert(stems.take(i).drop_last() == stems.take(i - 1));
        assert(stems.take(i).last() == stems[i - 1]);
        lemma_first_stem_none_prefix(stems, stem, i - 1);
    }
}

proof fn lemma_first_stem_extends(stems: Seq<Option<Seq<char>>>, stem: Seq<char>, i: int, j: int)
    requires
        0 <= i <= j <= stems.len(),
        first_with_stem(stems.take(i), stem) is Some,
    ensures
        first_with_stem(stems.take(j), stem) == first_with_stem(stems.take(i), stem),
    decreases j - i,
{
    if j > i {
        lemma_first_stem_extends(stems, stem, i, j - 1);
        assert(stems.take(j).drop_last() == stems.take(j - 1));
    }
}

fn stem_index(stems: &Vec<Option<String>>, stem: &String) -> (r: Option<usize>)
    ensures
        r == first_with_stem(opt_views(stems@), stem@),
{
    let ghost sv = opt_views(stems@);
    let n = stems.len();
    for i in 0..n
        invariant
            n == stems@.len(),
            sv == opt_views(stems@),
            forall|k: int| 0 <= k < i ==> #[trigger] sv[k] != Some(stem@),
    {
        let hit = match &stems[i] {
            Some(s) => *s == *stem,
            None => false,
        };
        if hit {
            proof {
                lemma_first_stem_none_prefix(sv, stem@, i as int);
                assert(sv.take(i + 1).drop_last() == sv.take(i as int));
                assert(sv.take(i + 1).last() == sv[i as int]);
                lemma_first_stem_extends(sv, stem@, i + 1, n as int);
                assert(sv.take(n as int) =~= sv);
            }
            return Some(i);
        }
    }
    proof {
        lemma_first_stem_none_prefix(sv, stem@, n as int);
        assert(sv.take(n as int) =~= sv);
    }
    None
}

/// Pairs the matches a matching service proposed (`replies`: card name and
/// file stem, in its order) with the decklist `entries` and the file stems
/// `stems` of the cards; see `ai_pairings`.
pub fn pair_replies(
    entries: &Vec<DecklistEntry>,
    stems: &Vec<Option<String>>,
    replies: &Vec<(String, String)>,
) -> (r: Vec<AiPairing>)
    ensures
        r@ == ai_pairings(entries@, opt_views(stems@), replies@),
{
    let mut r: Vec<AiPairing> = Vec::new();
    let m = replies.len();
    for i in 0..m
        invariant
            m == replies@.len(),
            r@ == ai_pairings(entries@, opt_views(stems@), replies@.take(i as int)),
    {
        assert(replies@.take(i + 1).drop_last() == replies@.take(i as int));
        assert(replies@.take(i + 1).last() == replies@[i as int]);
        if let Some(count) = count_for_name(entries, &replies[i].0) {
            if let Some(card) = stem_index(stems, &replies[i].1) {
                r.push(AiPairing { reply: i, count, card });
            }
        }
    }
    assert(replies@.take(m as int) == replies@);
    r
}

/// Pairs the matches a matching service proposed (`replies`) with the
/// decklist `entries` and the `cards`, read by their file stems; see
/// `pair_replies`.
pub fn pair_ai_matches(
    entries: &Vec<DecklistEntry>,
    cards: &Vec<Card>,
    replies: &Vec<(String, String)>,
) -> (r: Vec<AiPairing>)
    ensures
        r@ == ai_pairings(entries@, card_stems(cards@), replies@),
{
    let mut stems: Vec<Option<String>> = Vec::new();
    let n = cards.len();
    for i in 0..n
        invariant
            n == cards@.len(),
            opt_views(stems@) == card_stems(cards@.take(i as int)),
    {
        let st = path_file_stem(&cards[i].path);
        let ghost before = opt_views(stems@);
        stems.push(st);
        assert(opt_views(stems@) == before.push(spec_path_file_stem(cards@[i as int].path)));
        assert(card_stems(cards@.take(i + 1)) == card_stems(cards@.take(i as int)).push(
            spec_path_file_stem(cards@[i as int].path),
        ));
    }
    assert(cards@.take(n as int) == cards@);
    pair_replies(entries, &stems, replies)
}

/// The files of a card list, in order.
pub open spec fn card_paths(cards: Seq<Card>) -> Seq<std::path::PathBuf> {
    cards.map_values(|c: Card| c.path)
}

/// The files of ranked cards, in order.
pub open spec fn ranked_paths(r: Seq<(nat, Card)>) -> Seq<std::path::PathBuf> {
    r.map_values(|e: (nat, Card)| e.1.path)
}

proof fn lemma_insert_by_rank(r: Seq<(nat, Card)>, x: (nat, Card))
    requires
        forall|i: int, j: int| 0 <= i < j < r.len() ==> #[trigger] r[i].0 <= #[trigger] r[j].0,
    ensures
        ranked_paths(insert_by_rank(r, x)).to_multiset() == ranked_paths(r).to_multiset().insert(x.1.path),
        forall|i: int, j: int|
            0 <= i < j < insert_by_rank(r, x).len() ==> #[trigger] insert_by_rank(r, x)[i].0
                <= #[trigger] insert_by_rank(r, x)[j].0,
        forall|k: int|
            0 <= k < insert_by_rank(r, x).len() ==> #[trigger] insert_by_rank(r, x)[k] == x || r.contains(
                insert_by_rank(r, x)[k],
            ),
        insert_by_rank(r, x).len() == r.len() + 1,
    decreases r.len(),
{
    broadcast use vstd::seq_lib::group_to_multiset_ensures;

    if r.len() == 0 {
        assert(ranked_paths(seq![x]) == Seq::<std::path::PathBuf>::empty().push(x.1.path));
        assert(ranked_paths(r) == Seq::<std::path::PathBuf>::empty());
    } else {
        let last = r.last();
        let front = r.drop_last();
        assert(front.push(last) == r);
        assert(ranked_paths(r) == ranked_paths(front).push(last.1.path));
        if x.0 < last.0 {
            lemma_insert_by_rank(front, x);
            let ins = insert_by_rank(front, x);
            let res = ins.push(last);
            assert(ranked_paths(res) == ranked_paths(ins).push(last.1.path));
            assert forall|k: int| 0 <= k < ins.len() implies #[trigger] ins[k].0 <= last.0 by {
                if ins[k] != x {
                    let j = choose|j: int| 0 <= j < front.len() && front[j] == ins[k];
                    assert(r[j] == front[j]);
                    assert(r[r.len() - 1] == last);
                }
            }
            assert forall|i: int, j: int| 0 <= i < j < res.len() implies #[trigger] res[i].0
                <= #[trigger] res[j].0 by {
                if j == res.len() - 1 {
                    assert(res[i] == ins[i]);
                } else {
                    assert(res[i] == ins[i] && res[j] == ins[j]);
                }
            }
            assert forall|k: int| 0 <= k < res.len() implies #[trigger] res[k] == x || r.contains(res[k]) by {
                if k == res.len() - 1 {
                    assert(r[r.len() - 1] == res[k]);
                } else {
                    assert(res[k] == ins[k]);
                    if ins[k] != x {
                        let j = choose|j: int| 0 <= j < front.len() && front[j] == ins[k];
                        assert(r[j] == front[j]);
                    }
                }
            }
        } else {
            let res = r.push(x);
            assert(ranked_paths(res) == ranked_paths(r).push(x.1.path));
            assert forall|i: int, j: int| 0 <= i < j < res.len() implies #[trigger] res[i].0
                <= #[trigger] res[j].0 by {
                if j == res.len() - 1 {
                    if i < r.len() - 1 {
                        assert(r[r.len() - 1] == last);
                    }
                } else {
                    assert(res[i] == r[i] && res[j] == r[j]);
                }
            }
            assert forall|k: int| 0 <= k < res.len() implies #[trigger] res[k] == x || r.contains(res[k]) by {
                if k < r.len() {
                    assert(res[k] == r[k]);
                }
            }
        }
    }
}

proof fn lemma_sort_by_rank(s: Seq<(nat, Card)>)
    ensures
        ranked_paths(sort_by_rank(s)).to_multiset() == ranked_paths(s).to_multiset(),
        forall|i: int, j: int|
            0 <= i < j < sort_by_rank(s).len() ==> #[trigger] sort_by_rank(s)[i].0
                <= #[trigger] sort_by_rank(s)[j].0,
    decreases s.len(),
{
    broadcast use vstd::seq_lib::group_to_multiset_ensures;

    if s.len() > 0 {
        lemma_sort_by_rank(s.drop_last());
        lemma_insert_by_rank(sort_by_rank(s.drop_last()), s.last());
        assert(s.drop_last().push(s.last()) == s);
        assert(ranked_paths(s) == ranked_paths(s.drop_last()).push(s.last().1.path));
    }
}

proof fn lemma_parts_split_list(cards: Seq<Card>, card_match: Seq<Option<usize>>, matched: Seq<(String, u32)>)
    requires
        card_match.len() == cards.len(),
        forall|i: int|
            0 <= i < card_match.len() ==> (#[trigger] card_match[i] matches Some(m) ==> m < matched.len()),
    ensures
        ranked_paths(matched_part(cards, card_match, matched)).to_multiset().add(
            card_paths(unmatched_part(cards, card_match)).to_multiset(),
        ) == card_paths(cards).to_multiset(),
    decreases cards.len(),
{
    broadcast use vstd::seq_lib::group_to_multiset_ensures;
    broadcast use vstd::multiset::group_multiset_axioms;

    if cards.len() > 0 {
        let n = cards.len() - 1;
        let rest_cards = cards.drop_last();
        let rest_match = card_match.take(n);
        assert forall|i: int| 0 <= i < rest_match.len() implies (#[trigger] rest_match[i] matches Some(m)
            ==> m < matched.len()) by {
            assert(rest_match[i] == card_match[i]);
        }
        lemma_parts_split_list(rest_cards, rest_match, matched);
        assert(rest_cards.push(cards.last()) == cards);
        assert(card_paths(cards) == card_paths(rest_cards).push(cards.last().path));
        let mp = matched_part(rest_cards, rest_match, matched);
        let up = unmatched_part(rest_cards, rest_match);
        match card_match[n] {
            Some(m) => {
                let x = (
                    name_rank(matched, matched[m as int].0@),
                    cards.last().with_copy_count(matched[m as int].1),
                );
                assert(ranked_paths(mp.push(x)) == ranked_paths(mp).push(cards.last().path));
            },
            None => {
                assert(card_paths(up.push(cards.last())) == card_paths(up).push(cards.last().path));
            },
        }
        assert(ranked_paths(matched_part(cards, card_match, matched)).to_multiset().add(
            card_paths(unmatched_part(cards, card_match)).to_multiset(),
        ) =~= card_paths(cards).to_multiset());
    }
}

/// Ordering the card list by a decklist loses and adds no card: the result
/// holds the same files, each as often as before; and the matched cards
/// come first, in the order their names take in the decklist.
pub proof fn lemma_decklist_order_rearranges(
    cards: Seq<Card>,
    card_match: Seq<Option<usize>>,
    matched: Seq<(String, u32)>,
)
    requires
        card_match.len() == cards.len(),
        forall|i: int|
            0 <= i < card_match.len() ==> (#[trigger] card_match[i] matches Some(m) ==> m < matched.len()),
    ensures
        card_paths(decklist_order(cards, card_match, matched)).to_multiset() == card_paths(cards).to_multiset(),
        ({
            let ranked = sort_by_rank(matched_part(cards, card_match, matched));
            forall|i: int, j: int| 0 <= i < j < ranked.len() ==> #[trigger] ranked[i].0 <= #[trigger] ranked[j].0
        }),
{
    broadcast use vstd::seq_lib::group_to_multiset_ensures;
    broadcast use vstd::seq_lib::lemma_multiset_commutative;

    let mp = matched_part(cards, card_match, matched);
    let sorted = sort_by_rank(mp);
    lemma_sort_by_rank(mp);
    lemma_parts_split_list(cards, card_match, matched);
    let front = sorted.map_values(|e: (nat, Card)| e.1);
    let up = unmatched_part(cards, card_match);
    assert(card_paths(front) == ranked_paths(sorted));
    assert(card_paths(front + up) == card_paths(front) + card_paths(up));
    vstd::seq_lib::lemma_multiset_commutative(card_paths(front), card_paths(up));
}

fn rank_of(matched: &Vec<(String, u32)>, name: &String) -> (r: usize)
    ensures
        r == name_rank(matched@, name@),
{
    let n = matched.len();
    let ghost all = matched@;
    assert(all.skip(0) == all);
    let mut i: usize = 0;
    while i < n
        invariant
            n == all.len(),
            all == matched@,
            i <= n,
            name_rank(all, name@) == i + name_rank(all.skip(i as int), name@),
        decreases n - i,
    {
        assert(all.skip(i as int)[0] == all[i as int]);
        assert(all.skip(i as int).drop_first() == all.skip(i + 1));
        if matched[i].0 == *name {
            return i;
        }
        i = i + 1;
    }
    i
}

/// Reads decklists. It keeps the key of the service that matches card
/// names to image files; reading a decklist needs none.
pub struct DecklistManager {
    api_key: Option<String>,
}

impl DecklistManager {
    /// A manager holding the given key, if any.
    pub fn new(api_key: Option<String>) -> (m: Self)
        ensures
            m.api_key() == api_key,
    {
        DecklistManager { api_key }
    }

    pub closed spec fn api_key(&self) -> Option<String> {
        self.api_key
    }

    /// Replaces the key.
    pub fn set_api_key(&mut self, api_key: String)
        ensures
            final(self).api_key() == Some(api_key),
    {
        self.api_key = Some(api_key);
    }

    /// The key, if one is set.
    pub fn get_api_key(&self) -> (k: &Option<String>)
        ensures
            *k == self.api_key(),
    {
        &self.api_key
    }

    /// Orders the card list by the decklist matches `matched_cards` (in
    /// decklist order): each card whose file an entry names (the last such
    /// entry, see `path_matches`) is printed as often as that entry says, and
    /// the list is ordered as `decklist_order` says. Always succeeds.
    pub fn apply_decklist_to_cards(
        &self,
        matched_cards: &Vec<DecklistMatch>,
        available_cards: &mut Vec<Card>,
    ) -> (r: Result<(), String>)
        ensures
            r is Ok,
            final(available_cards)@ == decklist_order(
                old(available_cards)@,
                path_matches(matched_cards@, old(available_cards)@),
                names_and_counts(matched_cards@),
            ),
    {
        let card_match = match_cards_by_path(matched_cards, available_cards);
        let mut matched: Vec<(String, u32)> = Vec::new();
        let n = matched_cards.len();
        for i in 0..n
            invariant
                n == matched_cards@.len(),
                matched@ == names_and_counts(matched_cards@.take(i as int)),
        {
            let e = (matched_cards[i].card_name.clone(), matched_cards[i].count);
            matched.push(e);
            assert(names_and_counts(matched_cards@.take(i + 1)) == names_and_counts(matched_cards@.take(i as int)).push(e));
        }
        assert(matched_cards@.take(n as int) == matched_cards@);
        self.order_by_decklist(&matched, &card_match, available_cards)
    }

    /// Orders the card list by a decklist (see `decklist_order`).
    /// `matched` holds the name and copy count of each decklist match, in
    /// decklist order; `card_match[i]` is the match whose image is card `i`,
    /// if any. Always succeeds.
    pub fn order_by_decklist(
        &self,
        matched: &Vec<(String, u32)>,
        card_match: &Vec<Option<usize>>,
        available_cards: &mut Vec<Card>,
    ) -> (r: Result<(), String>)
        requires
            card_match@.len() == old(available_cards)@.len(),
            forall|i: int|
                0 <= i < card_match@.len() ==> (#[trigger] card_match@[i] matches Some(m) ==> m
                    < matched@.len()),
        ensures
            r is Ok,
            final(available_cards)@ == decklist_order(old(available_cards)@, card_match@, matched@),
    {
        let mut rest: Vec<Card> = Vec::new();
        std::mem::swap(&mut rest, available_cards);
        let ghost all = rest@;
        let total = rest.len();
        assert(all.len() == total);
        let mut ranked: Vec<(usize, Card)> = Vec::new();
        let mut unmatched: Vec<Card> = Vec::new();
        let mut i: usize = 0;
        assert(available_cards@.len() == 0);
        while rest.len() > 0
            invariant
                i + rest@.len() == all.len(),
                all.len() <= usize::MAX,
                card_match@.len() == all.len(),
                forall|k: int|
                    0 <= k < card_match@.len() ==> (#[trigger] card_match@[k] matches Some(m) ==> m
                        < matched@.len()),
                rest@ == all.skip(i as int),
                available_cards@.len() == 0,
                ranked@.len() <= i,
                ranks(ranked@) == sort_by_rank(matched_part(all.take(i as int), card_match@.take(i as int), matched@)),
                unmatched@ == unmatched_part(all.take(i as int), card_match@.take(i as int)),
            decreases rest@.len(),
        {
            let mut card = rest.remove(0);
            assert(card == all[i as int]);
            proof {
                assert(all.take(i + 1).drop_last() == all.take(i as int));
                assert(all.take(i + 1).last() == card);
                assert(card_match@.take(i + 1).take(i as int) == card_match@.take(i as int));
                assert(card_match@.take(i + 1)[i as int] == card_match@[i as int]);
                assert(rest@ == all.skip(i + 1));
            }
            match card_match[i] {
                Some(m) => {
                    let (name, count) = (&matched[m].0, matched[m].1);
                    let rank = rank_of(matched, name);
                    card.set_copy_count(count);
                    let ghost sorted = ranks(ranked@);
                    let ghost x = (rank as nat, card);
                    let mut j = ranked.len();
                    assert(sorted.take(j as int) == sorted && sorted.skip(j as int).len() == 0);
                    assert(insert_by_rank(sorted.take(j as int), x) + sorted.skip(j as int) == insert_by_rank(sorted, x));
                    while j > 0 && rank < ranked[j - 1].0
                        invariant
                            j <= ranked@.len(),
                            ranks(ranked@) == sorted,
                            x == (rank as nat, card),
                            insert_by_rank(sorted, x) == insert_by_rank(sorted.take(j as int), x)
                                + sorted.skip(j as int),
                        decreases j,
                    {
                        proof {
                            let t = sorted.take(j as int);
                            assert(t.last() == sorted[j - 1]);
                            assert(sorted[j - 1].0 == ranked@[j - 1].0 as nat);
                            assert(t.drop_last() == sorted.take(j - 1));
                            assert(sorted.skip(j - 1) == seq![sorted[j - 1]] + sorted.skip(j as int));
                            assert(insert_by_rank(t, x) == insert_by_rank(sorted.take(j - 1), x).push(t.last()));
                            assert(insert_by_rank(sorted.take(j - 1), x).push(t.last()) + sorted.skip(j as int)
                                == insert_by_rank(sorted.take(j - 1), x) + sorted.skip(j - 1));
                        }
                        j = j - 1;
                    }
                    proof {
                        let t = sorted.take(j as int);
                        if j > 0 {
                            assert(t.last() == sorted[j - 1]);
                            assert(sorted[j - 1].0 == ranked@[j - 1].0 as nat);
                        }
                        assert(insert_by_rank(t, x) == t.push(x));
                    }
                    ranked.insert(j, (rank, card));
                    assert(ranks(ranked@) == sorted.take(j as int).push(x) + sorted.skip(j as int));
                    proof {
                        let mp0 = matched_part(all.take(i as int), card_match@.take(i as int), matched@);
                        let mp1 = matched_part(all.take(i + 1), card_match@.take(i + 1), matched@);
                        assert(mp1 == mp0.push(x));
                        assert(mp1.drop_last() == mp0);
                        assert(sort_by_rank(mp1) == insert_by_rank(sort_by_rank(mp0), x));
                        assert(unmatched_part(all.take(i + 1), card_match@.take(i + 1)) == unmatched_part(
                            all.take(i as int),
                            card_match@.take(i as int),
                        ));
                    }
                },
                None => {
                    unmatched.push(card);
                    proof {
                        assert(matched_part(all.take(i + 1), card_match@.take(i + 1), matched@) == matched_part(
                            all.take(i as int),
                            card_match@.take(i as int),
                            matched@,
                        ));
                    }
                },
            }
            i = i + 1;
        }
        assert(all.take(i as int) == all);
        assert(card_match@.take(i as int) == card_match@);
        let ghost sorted_part = ranks(ranked@);
        let mut k: usize = 0;
        assert(sorted_part.skip(0) == sorted_part);
        while ranked.len() > 0
            invariant
                k + ranked@.len() == sorted_part.len(),
                sorted_part.len() <= usize::MAX,
                ranks(ranked@) == sorted_part.skip(k as int),
                available_cards@ == sorted_part.take(k as int).map_values(|e: (nat, Card)| e.1),
                unmatched@ == unmatched_part(all, card_match@),
            decreases ranked@.len(),
        {
            let ghost before = ranked@;
            let (_, card) = ranked.remove(0);
            proof {
                assert(ranked@ == before.drop_first());
                assert(ranks(ranked@) == ranks(before).drop_first());
                assert(sorted_part.skip(k as int).drop_first() == sorted_part.skip(k + 1));
                assert(sorted_part.skip(k as int)[0] == sorted_part[k as int]);
                assert(card == sorted_part[k as int].1);
                assert(sorted_part.take(k + 1) == sorted_part.take(k as int).push(sorted_part[k as int]));
                assert(ranks(ranked@) == sorted_part.skip(k + 1));
            }
            available_cards.push(card);
            k = k + 1;
        }
        assert(sorted_part.take(k as int) == sorted_part);
        available_cards.append(&mut unmatched);
        Ok(())
    }

    /// Parses decklist text into entries, one per line that is neither blank
    /// nor a comment (`#...`, `//...`). A line reads as `4 Name`, `4x Name`,
    /// `Name x4` or `Name (4)`, tried in that order; a line that fits none is
    /// one copy of the card it names. Parsing always succeeds.
    pub fn parse_decklist(&self, decklist_text: &str) -> (r: Result<Vec<DecklistEntry>, String>)
        ensures
            r matches Ok(v) && entries_view(v@) == parsed_decklist(decklist_text@),
    {
        let text = chars_of(decklist_text);
        let lines = split_chars(&text, '\n');
        let ghost all = views(lines@);
        let mut entries: Vec<DecklistEntry> = Vec::new();
        let n = lines.len();
        for i in 0..n
            invariant
                n == lines@.len(),
                all == views(lines@),
                all == split_on(decklist_text@, '\n'),
                entries_view(entries@) == decklist_entries(all.take(i as int)),
        {
            let line = trim_chars(&lines[i]);
            proof {
                assert(all.take(i + 1).drop_last() == all.take(i as int));
                assert(all.take(i + 1).last() == lines@[i as int]@);
            }
            let skipped = line.len() == 0 || line[0] == '#' || (line.len() >= 2 && line[0] == '/'
                && line[1] == '/');
            if !skipped {
                let e = parse_line(&line);
                let ghost before = entries_view(entries@);
                entries.push(e);
                assert(entries_view(entries@) == before.push((e.card_name@, e.count as nat)));
            }
        }
        assert(all.take(n as int) == all);
        Ok(entries)
    }
}

} // verus!
