use vstd::prelude::*;
use crate::text::{
    chars_of, decimal, lemma_decimal_round_trip, collapse_white_space, collapse_white_space_chars, dash_to_space, dashes_to_spaces,
    ends_with, extend_chars, find_char, has_suffix, is_alphanumeric, is_white_space, is_whitespace,
    parse_decimal, parse_unsigned, replace, replace_chars, slice, spec_is_alphanumeric,
    spec_to_lowercase, split_chars, split_on, split_once, starts_with, string_from_chars,
    strip_prefix_chars, to_lowercase, trim, trim_chars, trim_end_char, trim_end_char_chars,
    trim_end_digits, trim_end_digits_chars, views, words, join_space, is_digit, is_first_index,
};

verus! {

broadcast use vstd::string::group_string_axioms;

// --- API types ---

/// A decklist as MarvelCDB publishes it. `slots` maps card codes to copy
/// counts, one entry per code.
#[derive(Debug, Clone)]
pub struct MarvelCdbDecklist {
    pub id: u64,
    pub name: String,
    pub hero_code: Option<String>,
    pub hero_name: Option<String>,
    pub slots: Vec<(String, u32)>,
    pub meta: Option<String>,
}

/// A card as MarvelCDB publishes it, with the other side of a two-sided card.
#[derive(Debug)]
pub struct MarvelCdbCard {
    pub code: String,
    pub name: String,
    pub type_code: String,
    pub faction_code: String,
    pub pack_code: String,
    pub linked_card: Option<Box<MarvelCdbCard>>,
}

// --- Result types ---

/// A deck card that no image file was found for.
#[derive(Debug, Clone)]
pub struct UnmatchedCard {
    pub name: String,
    pub count: u32,
    pub faction: String,
    pub pack_code: String,
}

/// A card of a fetched deck with its copy count.
#[derive(Debug, Clone)]
pub struct FetchedCard {
    pub code: String,
    pub name: String,
    pub count: u32,
    pub faction_code: String,
    pub pack_code: String,
}

#[derive(Debug, Clone)]
pub struct FetchedDeck {
    pub deck_name: String,
    pub hero_name: String,
    pub cards: Vec<FetchedCard>,
}

// --- URL parsing ---

/// The first deck id found at `segs[i..]`: a segment `decklist` or `deck`
/// whose second successor parses as a number.
pub open spec fn id_after_marker(segs: Seq<Seq<char>>, i: int) -> Option<nat>
    decreases segs.len() - i,
{
    if i < 0 || i >= segs.len() {
        None
    } else if (segs[i] == "decklist"@ || segs[i] == "deck"@) && i + 2 < segs.len()
        && parse_unsigned(segs[i + 2], u64::MAX as nat).is_some() {
        parse_unsigned(segs[i + 2], u64::MAX as nat)
    } else {
        id_after_marker(segs, i + 1)
    }
}

/// The number spelled by the last segment of `segs` that is one.
pub open spec fn last_numeric(segs: Seq<Seq<char>>) -> Option<nat>
    decreases segs.len(),
{
    if segs.len() == 0 {
        None
    } else if parse_unsigned(segs.last(), u64::MAX as nat).is_some() {
        parse_unsigned(segs.last(), u64::MAX as nat)
    } else {
        last_numeric(segs.drop_last())
    }
}

/// The deck id that a MarvelCDB deck id or URL names: the whole trimmed
/// input when it is a number; else the number two segments after a
/// `decklist` or `deck` segment; else the last numeric segment.
pub open spec fn deck_id_of(input: Seq<char>) -> Option<nat> {
    let t = trim(input);
    let segs = split_on(t, '/');
    if parse_unsigned(t, u64::MAX as nat).is_some() {
        parse_unsigned(t, u64::MAX as nat)
    } else if id_after_marker(segs, 0).is_some() {
        id_after_marker(segs, 0)
    } else {
        last_numeric(segs)
    }
}

/// A deck id written out in decimal, as the deck's bare id, reads back as
/// the same id.
pub proof fn lemma_deck_id_round_trip(id: u64)
    ensures
        deck_id_of(decimal(id as nat)) == Some(id as nat),
{
    lemma_decimal_round_trip(id as nat, u64::MAX as nat);
}

/// Reads a deck id from a MarvelCDB URL such as
/// `https://marvelcdb.com/decklist/view/12345/slug`, or from the bare id.
/// The error is the message for the user.
pub fn parse_marvelcdb_input(input: &str) -> (r: Result<u64, String>)
    ensures
        match r {
            Ok(id) => deck_id_of(input@) == Some(id as nat),
            Err(msg) => deck_id_of(input@).is_none() && msg@
                == "Could not parse MarvelCDB deck ID from input: "@ + trim(input@),
        },
{
    let chars = chars_of(input);
    let t = trim_chars(&chars);
    if let Some(id) = parse_decimal(&t, u64::MAX) {
        return Ok(id);
    }
    let segs = split_chars(&t, '/');
    let ghost sv = views(segs@);
    let n = segs.len();
    let decklist = chars_of("decklist");
    let deck = chars_of("deck");
    let mut i: usize = 0;
    while i < n
        invariant
            n == segs@.len(),
            sv == views(segs@),
            sv == split_on(t@, '/'),
            t@ == trim(input@),
            parse_unsigned(t@, u64::MAX as nat).is_none(),
            decklist@ == "decklist"@,
            deck@ == "deck"@,
            i <= n,
            id_after_marker(sv, 0) == id_after_marker(sv, i as int),
        decreases n - i,
    {
        assert(sv[i as int] == segs@[i as int]@);
        if (vec_eq(&segs[i], &decklist) || vec_eq(&segs[i], &deck)) && n - i > 2 {
            assert(sv[i + 2] == segs@[i + 2]@);
            if let Some(id) = parse_decimal(&segs[i + 2], u64::MAX) {
                return Ok(id);
            }
        }
        i = i + 1;
    }
    let mut j = n;
    assert(sv.take(n as int) == sv);
    assert(id_after_marker(sv, n as int).is_none());
    while j > 0
        invariant
            n == segs@.len(),
            sv == views(segs@),
            j <= n,
            sv == split_on(t@, '/'),
            t@ == trim(input@),
            parse_unsigned(t@, u64::MAX as nat).is_none(),
            id_after_marker(sv, 0).is_none(),
            last_numeric(sv) == last_numeric(sv.take(j as int)),
        decreases j,
    {
        assert(sv.take(j as int).last() == segs@[j - 1]@);
        if let Some(id) = parse_decimal(&segs[j - 1], u64::MAX) {
            return Ok(id);
        }
        assert(sv.take(j as int).drop_last() == sv.take(j - 1));
        j = j - 1;
    }
    let mut msg = chars_of("Could not parse MarvelCDB deck ID from input: ");
    extend_chars(&mut msg, &t);
    Err(string_from_chars(&msg))
}

// --- Card name parsing ---

/// `s` stripped of `name` and the first separator (`_`, ` ` or `-`) that
/// follows it, when it starts with them.
pub open spec fn strip_name_prefix(s: Seq<char>, name: Seq<char>) -> Seq<char> {
    if starts_with(s, name.push('_')) {
        s.skip(name.len() as int + 1)
    } else if starts_with(s, name.push(' ')) {
        s.skip(name.len() as int + 1)
    } else if starts_with(s, name.push('-')) {
        s.skip(name.len() as int + 1)
    } else {
        s
    }
}

/// `s` stripped of `suffix` and the separator (`_`, ` ` or `-`) before it.
pub open spec fn strip_name_suffix(s: Seq<char>, suffix: Seq<char>) -> Seq<char> {
    if ends_with(s, seq!['_'] + suffix) {
        s.take(s.len() - suffix.len() - 1)
    } else if ends_with(s, seq![' '] + suffix) {
        s.take(s.len() - suffix.len() - 1)
    } else if ends_with(s, seq!['-'] + suffix) {
        s.take(s.len() - suffix.len() - 1)
    } else {
        s
    }
}

/// The card types that image file names end with.
pub open spec fn card_type_suffixes() -> Seq<Seq<char>> {
    seq![
        "Event"@,
        "Upgrade"@,
        "Ally"@,
        "Support"@,
        "Resource"@,
        "Attachment"@,
        "Obligation"@,
        "Alter-Ego"@,
        "Hero"@,
        "Minion"@,
        "Treachery"@,
        "Player Side Scheme"@,
        "Side Scheme"@,
        "Environment"@,
        "Permanent"@,
    ]
}

/// `s` after stripping each of `suffixes` in turn.
pub open spec fn strip_suffixes(s: Seq<char>, suffixes: Seq<Seq<char>>) -> Seq<char>
    decreases suffixes.len(),
{
    if suffixes.len() == 0 {
        s
    } else {
        strip_suffixes(strip_name_suffix(s, suffixes[0]), suffixes.drop_first())
    }
}

/// `s` without trailing digits, then underscores, then hyphens, then spaces.
pub open spec fn tidy_end(s: Seq<char>) -> Seq<char> {
    trim_end_char(trim_end_char(trim_end_char(trim_end_digits(s), '_'), '-'), ' ')
}

/// `stem` stripped of the context prefix, then of the hero name that
/// follows the first underscore of the prefix.
pub open spec fn strip_context(stem: Seq<char>, prefix: Option<Seq<char>>) -> Seq<char> {
    match prefix {
        None => stem,
        Some(p) => {
            let s = strip_name_prefix(stem, p);
            match split_once(p, '_') {
                Some((_civilian, hero)) => strip_name_prefix(s, hero),
                None => s,
            }
        },
    }
}

/// The card name that an image file stem spells, given the name of the
/// folder it was found in (`prefix`): the folder's prefix, trailing copy
/// numbers and card-type suffixes are dropped, `_s` becomes `'s`,
/// underscores and hyphens become spaces, and white space is collapsed.
pub open spec fn card_name_from_stem(stem: Seq<char>, prefix: Option<Seq<char>>) -> Seq<char> {
    let s = strip_context(stem, prefix);
    let s = tidy_end(s);
    let s = strip_suffixes(s, card_type_suffixes());
    let s = tidy_end(s);
    let s = replace(s, "_s "@, "'s "@);
    let s = replace(s, "_s_"@, "'s "@);
    let s = s.map_values(|c: char| dash_to_space(c));
    collapse_white_space(s)
}

/// An ASCII letter.
pub open spec fn is_ascii_letter(c: char) -> bool {
    ('a' <= c && c <= 'z') || ('A' <= c && c <= 'Z')
}

/// A separator a file name may put between words.
pub open spec fn is_name_sep(c: char) -> bool {
    c == '_' || c == ' ' || c == '-'
}

/// The card types image file names may end with.
pub open spec fn is_card_type_name(t: Seq<char>) -> bool {
    ||| t == "Event"@
    ||| t == "Upgrade"@
    ||| t == "Ally"@
    ||| t == "Support"@
    ||| t == "Resource"@
    ||| t == "Attachment"@
    ||| t == "Obligation"@
    ||| t == "Alter-Ego"@
    ||| t == "Hero"@
    ||| t == "Minion"@
    ||| t == "Treachery"@
    ||| t == "Player Side Scheme"@
    ||| t == "Side Scheme"@
    ||| t == "Environment"@
    ||| t == "Permanent"@
}

/// `s` ends `t` right after a separator of `t`.
pub open spec fn ends_after_sep(t: Seq<char>, s: Seq<char>) -> bool {
    s.len() < t.len() && is_name_sep(t[t.len() - s.len() - 1]) && t.skip(t.len() - s.len()) == s
}

proof fn lemma_tail_match(n: Seq<char>, t: Seq<char>, x: char, s: Seq<char>)
    requires
        forall|i: int| 0 <= i < s.len() ==> #[trigger] s[i] != '_',
        ends_with(n + seq!['_'] + t, seq![x] + s),
    ensures
        (s.len() < t.len() && t[t.len() - s.len() - 1] == x && t.skip(t.len() - s.len()) == s) || (
        s.len() == t.len() && x == '_' && s == t),
{
    let v = n + seq!['_'] + t;
    let w = seq![x] + s;
    let off = v.len() - w.len();
    assert(v.skip(off) == w);
    assert forall|i: int| 0 <= i < w.len() implies #[trigger] w[i] == v[off + i] by {
        assert(v.skip(off)[i] == v[off + i]);
    }
    if s.len() > t.len() {
        let m = s.len() - t.len();
        assert(w[m] == s[m - 1]);
        assert(s[m - 1] != '_');
        assert(v[n.len() as int] == '_');
        assert(w[m] == v[off + m]);
        assert(false);
    } else if s.len() == t.len() {
        assert(w[0] == v[off]);
        assert(v[n.len() as int] == '_');
        assert forall|i: int| 0 <= i < s.len() implies s[i] == t[i] by {
            assert(w[i + 1] == v[off + i + 1]);
        }
        assert(s =~= t);
    } else {
        let k = t.len() - s.len() - 1;
        assert(w[0] == v[off]);
        assert(v[off] == t[k]);
        assert forall|i: int| 0 <= i < s.len() implies #[trigger] t.skip(k + 1)[i] == s[i] by {
            assert(w[i + 1] == v[off + i + 1]);
        }
        assert(t.skip(k + 1) =~= s);
    }
}

proof fn lemma_letters_end_no_suffix(n: Seq<char>, x: char, s: Seq<char>)
    requires
        forall|i: int| 0 <= i < n.len() ==> is_ascii_letter(#[trigger] n[i]),
        is_name_sep(x),
    ensures
        !ends_with(n, seq![x] + s),
{
    let w = seq![x] + s;
    if ends_with(n, w) {
        let off = n.len() - w.len();
        assert(n.skip(off)[0] == n[off]);
        assert(w[0] == x);
    }
}

proof fn lemma_strip_none(n: Seq<char>, l: Seq<Seq<char>>)
    requires
        forall|i: int| 0 <= i < n.len() ==> is_ascii_letter(#[trigger] n[i]),
    ensures
        strip_suffixes(n, l) == n,
    decreases l.len(),
{
    if l.len() > 0 {
        lemma_letters_end_no_suffix(n, '_', l[0]);
        lemma_letters_end_no_suffix(n, ' ', l[0]);
        lemma_letters_end_no_suffix(n, '-', l[0]);
        lemma_strip_none(n, l.drop_first());
    }
}

proof fn lemma_strip_walk(n: Seq<char>, t: Seq<char>, l: Seq<Seq<char>>, ti: int)
    requires
        forall|i: int| 0 <= i < n.len() ==> is_ascii_letter(#[trigger] n[i]),
        0 <= ti < l.len(),
        l[ti] == t,
        forall|j: int, i: int| 0 <= j < l.len() && 0 <= i < l[j].len() ==> #[trigger] l[j][i] != '_',
        forall|j: int| 0 <= j < ti ==> #[trigger] l[j] != t && !ends_after_sep(t, l[j]),
    ensures
        strip_suffixes(n + seq!['_'] + t, l) == n,
    decreases l.len(),
{
    let v = n + seq!['_'] + t;
    let s = l[0];
    assert forall|i: int| 0 <= i < s.len() implies #[trigger] s[i] != '_' by {
        assert(l[0][i] != '_');
    }
    if ti == 0 {
        assert((seq!['_'] + t).len() <= v.len());
        assert(v.skip(v.len() - t.len() - 1) =~= seq!['_'] + t);
        assert(v.take(v.len() - t.len() - 1) =~= n);
        lemma_strip_none(n, l.drop_first());
    } else {
        assert(l[0] != t && !ends_after_sep(t, l[0]));
        if ends_with(v, seq!['_'] + s) {
            lemma_tail_match(n, t, '_', s);
        }
        if ends_with(v, seq![' '] + s) {
            lemma_tail_match(n, t, ' ', s);
        }
        if ends_with(v, seq!['-'] + s) {
            lemma_tail_match(n, t, '-', s);
        }
        assert(strip_name_suffix(v, s) == v);
        let rest = l.drop_first();
        assert forall|j: int, i: int| 0 <= j < rest.len() && 0 <= i < rest[j].len() implies #[trigger] rest[j][i]
            != '_' by {
            assert(rest[j] == l[j + 1]);
        }
        assert forall|j: int| 0 <= j < ti - 1 implies #[trigger] rest[j] != t && !ends_after_sep(t, rest[j]) by {
            assert(rest[j] == l[j + 1]);
        }
        lemma_strip_walk(n, t, rest, ti - 1);
    }
}

/// Earlier card types in the list are neither later ones nor their ends
/// after a separator.
proof fn lemma_type_pair(ti: int, j: int)
    requires
        0 <= j < ti < card_type_suffixes().len(),
    ensures
        card_type_suffixes()[j] != card_type_suffixes()[ti],
        !ends_after_sep(card_type_suffixes()[ti], card_type_suffixes()[j]),
{
    reveal_strlit("Event");
    reveal_strlit("Upgrade");
    reveal_strlit("Ally");
    reveal_strlit("Support");
    reveal_strlit("Resource");
    reveal_strlit("Attachment");
    reveal_strlit("Obligation");
    reveal_strlit("Alter-Ego");
    reveal_strlit("Hero");
    reveal_strlit("Minion");
    reveal_strlit("Treachery");
    reveal_strlit("Player Side Scheme");
    reveal_strlit("Side Scheme");
    reveal_strlit("Environment");
    reveal_strlit("Permanent");
    let l = card_type_suffixes();
    if ti == 1 && j == 0 {
        assert(l[0] == "Event"@ && l[1] == "Upgrade"@);
        assert(l[0].len() == 5 && l[1].len() == 7);
        assert(!is_name_sep(l[1][1]));
    }
    if ti == 2 && j == 0 {
        assert(l[0] == "Event"@ && l[2] == "Ally"@);
        assert(l[0].len() == 5 && l[2].len() == 4);
    }
    if ti == 2 && j == 1 {
        assert(l[1] == "Upgrade"@ && l[2] == "Ally"@);
        assert(l[1].len() == 7 && l[2].len() == 4);
    }
    if ti == 3 && j == 0 {
        assert(l[0] == "Event"@ && l[3] == "Support"@);
        assert(l[0].len() == 5 && l[3].len() == 7);
        assert(!is_name_sep(l[3][1]));
    }
    if ti == 3 && j == 1 {
        assert(l[1] == "Upgrade"@ && l[3] == "Support"@);
        assert(l[1][0] != l[3][0]);
    }
    if ti == 3 && j == 2 {
        assert(l[2] == "Ally"@ && l[3] == "Support"@);
        assert(l[2].len() == 4 && l[3].len() == 7);
        assert(!is_name_sep(l[3][2]));
    }
    if ti == 4 && j == 0 {
        assert(l[0] == "Event"@ && l[4] == "Resource"@);
        assert(l[0].len() == 5 && l[4].len() == 8);
        assert(!is_name_sep(l[4][2]));
    }
    if ti == 4 && j == 1 {
        assert(l[1] == "Upgrade"@ && l[4] == "Resource"@);
        assert(l[1].len() == 7 && l[4].len() == 8);
        assert(!is_name_sep(l[4][0]));
    }
    if ti == 4 && j == 2 {
        assert(l[2] == "Ally"@ && l[4] == "Resource"@);
        assert(l[2].len() == 4 && l[4].len() == 8);
        assert(!is_name_sep(l[4][3]));
    }
    if ti == 4 && j == 3 {
        assert(l[3] == "Support"@ && l[4] == "Resource"@);
        assert(l[3].len() == 7 && l[4].len() == 8);
        assert(!is_name_sep(l[4][0]));
    }
    if ti == 5 && j == 0 {
        assert(l[0] == "Event"@ && l[5] == "Attachment"@);
        assert(l[0].len() == 5 && l[5].len() == 10);
        assert(!is_name_sep(l[5][4]));
    }
    if ti == 5 && j == 1 {
        assert(l[1] == "Upgrade"@ && l[5] == "Attachment"@);
        assert(l[1].len() == 7 && l[5].len() == 10);
        assert(!is_name_sep(l[5][2]));
    }
    if ti == 5 && j == 2 {
        assert(l[2] == "Ally"@ && l[5] == "Attachment"@);
        assert(l[2].len() == 4 && l[5].len() == 10);
        assert(!is_name_sep(l[5][5]));
    }
    if ti == 5 && j == 3 {
        assert(l[3] == "Support"@ && l[5] == "Attachment"@);
        assert(l[3].len() == 7 && l[5].len() == 10);
        assert(!is_name_sep(l[5][2]));
    }
    if ti == 5 && j == 4 {
        assert(l[4] == "Resource"@ && l[5] == "Attachment"@);
        assert(l[4].len() == 8 && l[5].len() == 10);
        assert(!is_name_sep(l[5][1]));
    }
    if ti == 6 && j == 0 {
        assert(l[0] == "Event"@ && l[6] == "Obligation"@);
        assert(l[0].len() == 5 && l[6].len() == 10);
        assert(!is_name_sep(l[6][4]));
    }
    if ti == 6 && j == 1 {
        assert(l[1] == "Upgrade"@ && l[6] == "Obligation"@);
        assert(l[1].len() == 7 && l[6].len() == 10);
        assert(!is_name_sep(l[6][2]));
    }
    if ti == 6 && j == 2 {
        assert(l[2] == "Ally"@ && l[6] == "Obligation"@);
        assert(l[2].len() == 4 && l[6].len() == 10);
        assert(!is_name_sep(l[6][5]));
    }
    if ti == 6 && j == 3 {
        assert(l[3] == "Support"@ && l[6] == "Obligation"@);
        assert(l[3].len() == 7 && l[6].len() == 10);
        assert(!is_name_sep(l[6][2]));
    }
    if ti == 6 && j == 4 {
        assert(l[4] == "Resource"@ && l[6] == "Obligation"@);
        assert(l[4].len() == 8 && l[6].len() == 10);
        assert(!is_name_sep(l[6][1]));
    }
    if ti == 6 && j == 5 {
        assert(l[5] == "Attachment"@ && l[6] == "Obligation"@);
        assert(l[5][0] != l[6][0]);
    }
    if ti == 7 && j == 0 {
        assert(l[0] == "Event"@ && l[7] == "Alter-Ego"@);
        assert(l[0].len() == 5 && l[7].len() == 9);
        assert(!is_name_sep(l[7][3]));
    }
    if ti == 7 && j == 1 {
        assert(l[1] == "Upgrade"@ && l[7] == "Alter-Ego"@);
        assert(l[1].len() == 7 && l[7].len() == 9);
        assert(!is_name_sep(l[7][1]));
    }
    if ti == 7 && j == 2 {
        assert(l[2] == "Ally"@ && l[7] == "Alter-Ego"@);
        assert(l[2].len() == 4 && l[7].len() == 9);
        assert(!is_name_sep(l[7][4]));
    }
    if ti == 7 && j == 3 {
        assert(l[3] == "Support"@ && l[7] == "Alter-Ego"@);
        assert(l[3].len() == 7 && l[7].len() == 9);
        assert(!is_name_sep(l[7][1]));
    }
    if ti == 7 && j == 4 {
        assert(l[4] == "Resource"@ && l[7] == "Alter-Ego"@);
        assert(l[4].len() == 8 && l[7].len() == 9);
        assert(!is_name_sep(l[7][0]));
    }
    if ti == 7 && j == 5 {
        assert(l[5] == "Attachment"@ && l[7] == "Alter-Ego"@);
        assert(l[5].len() == 10 && l[7].len() == 9);
    }
    if ti == 7 && j == 6 {
        assert(l[6] == "Obligation"@ && l[7] == "Alter-Ego"@);
        assert(l[6].len() == 10 && l[7].len() == 9);
    }
    if ti == 8 && j == 0 {
        assert(l[0] == "Event"@ && l[8] == "Hero"@);
        assert(l[0].len() == 5 && l[8].len() == 4);
    }
    if ti == 8 && j == 1 {
        assert(l[1] == "Upgrade"@ && l[8] == "Hero"@);
        assert(l[1].len() == 7 && l[8].len() == 4);
    }
    if ti == 8 && j == 2 {
        assert(l[2] == "Ally"@ && l[8] == "Hero"@);
        assert(l[2][0] != l[8][0]);
    }
    if ti == 8 && j == 3 {
        assert(l[3] == "Support"@ && l[8] == "Hero"@);
        assert(l[3].len() == 7 && l[8].len() == 4);
    }
    if ti == 8 && j == 4 {
        assert(l[4] == "Resource"@ && l[8] == "Hero"@);
        assert(l[4].len() == 8 && l[8].len() == 4);
    }
    if ti == 8 && j == 5 {
        assert(l[5] == "Attachment"@ && l[8] == "Hero"@);
        assert(l[5].len() == 10 && l[8].len() == 4);
    }
    if ti == 8 && j == 6 {
        assert(l[6] == "Obligation"@ && l[8] == "Hero"@);
        assert(l[6].len() == 10 && l[8].len() == 4);
    }
    if ti == 8 && j == 7 {
        assert(l[7] == "Alter-Ego"@ && l[8] == "Hero"@);
        assert(l[7].len() == 9 && l[8].len() == 4);
    }
    if ti == 9 && j == 0 {
        assert(l[0] == "Event"@ && l[9] == "Minion"@);
        assert(l[0].len() == 5 && l[9].len() == 6);
        assert(!is_name_sep(l[9][0]));
    }
    if ti == 9 && j == 1 {
        assert(l[1] == "Upgrade"@ && l[9] == "Minion"@);
        assert(l[1].len() == 7 && l[9].len() == 6);
    }
    if ti == 9 && j == 2 {
        assert(l[2] == "Ally"@ && l[9] == "Minion"@);
        assert(l[2].len() == 4 && l[9].len() == 6);
        assert(!is_name_sep(l[9][1]));
    }
    if ti == 9 && j == 3 {
        assert(l[3] == "Support"@ && l[9] == "Minion"@);
        assert(l[3].len() == 7 && l[9].len() == 6);
    }
    if ti == 9 && j == 4 {
        assert(l[4] == "Resource"@ && l[9] == "Minion"@);
        assert(l[4].len() == 8 && l[9].len() == 6);
    }
    if ti == 9 && j == 5 {
        assert(l[5] == "Attachment"@ && l[9] == "Minion"@);
        assert(l[5].len() == 10 && l[9].len() == 6);
    }
    if ti == 9 && j == 6 {
        assert(l[6] == "Obligation"@ && l[9] == "Minion"@);
        assert(l[6].len() == 10 && l[9].len() == 6);
    }
    if ti == 9 && j == 7 {
        assert(l[7] == "Alter-Ego"@ && l[9] == "Minion"@);
        assert(l[7].len() == 9 && l[9].len() == 6);
    }
    if ti == 9 && j == 8 {
        assert(l[8] == "Hero"@ && l[9] == "Minion"@);
        assert(l[8].len() == 4 && l[9].len() == 6);
        assert(!is_name_sep(l[9][1]));
    }
    if ti == 10 && j == 0 {
        assert(l[0] == "Event"@ && l[10] == "Treachery"@);
        assert(l[0].len() == 5 && l[10].len() == 9);
        assert(!is_name_sep(l[10][3]));
    }
    if ti == 10 && j == 1 {
        assert(l[1] == "Upgrade"@ && l[10] == "Treachery"@);
        assert(l[1].len() == 7 && l[10].len() == 9);
        assert(!is_name_sep(l[10][1]));
    }
    if ti == 10 && j == 2 {
        assert(l[2] == "Ally"@ && l[10] == "Treachery"@);
        assert(l[2].len() == 4 && l[10].len() == 9);
        assert(!is_name_sep(l[10][4]));
    }
    if ti == 10 && j == 3 {
        assert(l[3] == "Support"@ && l[10] == "Treachery"@);
        assert(l[3].len() == 7 && l[10].len() == 9);
        assert(!is_name_sep(l[10][1]));
    }
    if ti == 10 && j == 4 {
        assert(l[4] == "Resource"@ && l[10] == "Treachery"@);
        assert(l[4].len() == 8 && l[10].len() == 9);
        assert(!is_name_sep(l[10][0]));
    }
    if ti == 10 && j == 5 {
        assert(l[5] == "Attachment"@ && l[10] == "Treachery"@);
        assert(l[5].len() == 10 && l[10].len() == 9);
    }
    if ti == 10 && j == 6 {
        assert(l[6] == "Obligation"@ && l[10] == "Treachery"@);
        assert(l[6].len() == 10 && l[10].len() == 9);
    }
    if ti == 10 && j == 7 {
        assert(l[7] == "Alter-Ego"@ && l[10] == "Treachery"@);
        assert(l[7][0] != l[10][0]);
    }
    if ti == 10 && j == 8 {
        assert(l[8] == "Hero"@ && l[10] == "Treachery"@);
        assert(l[8].len() == 4 && l[10].len() == 9);
        assert(!is_name_sep(l[10][4]));
    }
    if ti == 10 && j == 9 {
        assert(l[9] == "Minion"@ && l[10] == "Treachery"@);
        assert(l[9].len() == 6 && l[10].len() == 9);
        assert(!is_name_sep(l[10][2]));
    }
    if ti == 11 && j == 0 {
        assert(l[0] == "Event"@ && l[11] == "Player Side Scheme"@);
        assert(l[0].len() == 5 && l[11].len() == 18);
        assert(!is_name_sep(l[11][12]));
    }
    if ti == 11 && j == 1 {
        assert(l[1] == "Upgrade"@ && l[11] == "Player Side Scheme"@);
        assert(l[1].len() == 7 && l[11].len() == 18);
        assert(!is_name_sep(l[11][10]));
    }
    if ti == 11 && j == 2 {
        assert(l[2] == "Ally"@ && l[11] == "Player Side Scheme"@);
        assert(l[2].len() == 4 && l[11].len() == 18);
        assert(!is_name_sep(l[11][13]));
    }
    if ti == 11 && j == 3 {
        assert(l[3] == "Support"@ && l[11] == "Player Side Scheme"@);
        assert(l[3].len() == 7 && l[11].len() == 18);
        assert(!is_name_sep(l[11][10]));
    }
    if ti == 11 && j == 4 {
        assert(l[4] == "Resource"@ && l[11] == "Player Side Scheme"@);
        assert(l[4].len() == 8 && l[11].len() == 18);
        assert(!is_name_sep(l[11][9]));
    }
    if ti == 11 && j == 5 {
        assert(l[5] == "Attachment"@ && l[11] == "Player Side Scheme"@);
        assert(l[5].len() == 10 && l[11].len() == 18);
        assert(!is_name_sep(l[11][7]));
    }
    if ti == 11 && j == 6 {
        assert(l[6] == "Obligation"@ && l[11] == "Player Side Scheme"@);
        assert(l[6].len() == 10 && l[11].len() == 18);
        assert(!is_name_sep(l[11][7]));
    }
    if ti == 11 && j == 7 {
        assert(l[7] == "Alter-Ego"@ && l[11] == "Player Side Scheme"@);
        assert(l[7].len() == 9 && l[11].len() == 18);
        assert(!is_name_sep(l[11][8]));
    }
    if ti == 11 && j == 8 {
        assert(l[8] == "Hero"@ && l[11] == "Player Side Scheme"@);
        assert(l[8].len() == 4 && l[11].len() == 18);
        assert(!is_name_sep(l[11][13]));
    }
    if ti == 11 && j == 9 {
        assert(l[9] == "Minion"@ && l[11] == "Player Side Scheme"@);
        assert(l[9].len() == 6 && l[11].len() == 18);
        assert(l[11].skip(12)[0] != l[9][0]);
    }
    if ti == 11 && j == 10 {
        assert(l[10] == "Treachery"@ && l[11] == "Player Side Scheme"@);
        assert(l[10].len() == 9 && l[11].len() == 18);
        assert(!is_name_sep(l[11][8]));
    }
    if ti == 12 && j == 0 {
        assert(l[0] == "Event"@ && l[12] == "Side Scheme"@);
        assert(l[0].len() == 5 && l[12].len() == 11);
        assert(!is_name_sep(l[12][5]));
    }
    if ti == 12 && j == 1 {
        assert(l[1] == "Upgrade"@ && l[12] == "Side Scheme"@);
        assert(l[1].len() == 7 && l[12].len() == 11);
        assert(!is_name_sep(l[12][3]));
    }
    if ti == 12 && j == 2 {
        assert(l[2] == "Ally"@ && l[12] == "Side Scheme"@);
        assert(l[2].len() == 4 && l[12].len() == 11);
        assert(!is_name_sep(l[12][6]));
    }
    if ti == 12 && j == 3 {
        assert(l[3] == "Support"@ && l[12] == "Side Scheme"@);
        assert(l[3].len() == 7 && l[12].len() == 11);
        assert(!is_name_sep(l[12][3]));
    }
    if ti == 12 && j == 4 {
        assert(l[4] == "Resource"@ && l[12] == "Side Scheme"@);
        assert(l[4].len() == 8 && l[12].len() == 11);
        assert(!is_name_sep(l[12][2]));
    }
    if ti == 12 && j == 5 {
        assert(l[5] == "Attachment"@ && l[12] == "Side Scheme"@);
        assert(l[5].len() == 10 && l[12].len() == 11);
        assert(!is_name_sep(l[12][0]));
    }
    if ti == 12 && j == 6 {
        assert(l[6] == "Obligation"@ && l[12] == "Side Scheme"@);
        assert(l[6].len() == 10 && l[12].len() == 11);
        assert(!is_name_sep(l[12][0]));
    }
    if ti == 12 && j == 7 {
        assert(l[7] == "Alter-Ego"@ && l[12] == "Side Scheme"@);
        assert(l[7].len() == 9 && l[12].len() == 11);
        assert(!is_name_sep(l[12][1]));
    }
    if ti == 12 && j == 8 {
        assert(l[8] == "Hero"@ && l[12] == "Side Scheme"@);
        assert(l[8].len() == 4 && l[12].len() == 11);
        assert(!is_name_sep(l[12][6]));
    }
    if ti == 12 && j == 9 {
        assert(l[9] == "Minion"@ && l[12] == "Side Scheme"@);
        assert(l[9].len() == 6 && l[12].len() == 11);
        assert(l[12].skip(5)[0] != l[9][0]);
    }
    if ti == 12 && j == 10 {
        assert(l[10] == "Treachery"@ && l[12] == "Side Scheme"@);
        assert(l[10].len() == 9 && l[12].len() == 11);
        assert(!is_name_sep(l[12][1]));
    }
    if ti == 12 && j == 11 {
        assert(l[11] == "Player Side Scheme"@ && l[12] == "Side Scheme"@);
        assert(l[11].len() == 18 && l[12].len() == 11);
    }
    if ti == 13 && j == 0 {
        assert(l[0] == "Event"@ && l[13] == "Environment"@);
        assert(l[0].len() == 5 && l[13].len() == 11);
        assert(!is_name_sep(l[13][5]));
    }
    if ti == 13 && j == 1 {
        assert(l[1] == "Upgrade"@ && l[13] == "Environment"@);
        assert(l[1].len() == 7 && l[13].len() == 11);
        assert(!is_name_sep(l[13][3]));
    }
    if ti == 13 && j == 2 {
        assert(l[2] == "Ally"@ && l[13] == "Environment"@);
        assert(l[2].len() == 4 && l[13].len() == 11);
        assert(!is_name_sep(l[13][6]));
    }
    if ti == 13 && j == 3 {
        assert(l[3] == "Support"@ && l[13] == "Environment"@);
        assert(l[3].len() == 7 && l[13].len() == 11);
        assert(!is_name_sep(l[13][3]));
    }
    if ti == 13 && j == 4 {
        assert(l[4] == "Resource"@ && l[13] == "Environment"@);
        assert(l[4].len() == 8 && l[13].len() == 11);
        assert(!is_name_sep(l[13][2]));
    }
    if ti == 13 && j == 5 {
        assert(l[5] == "Attachment"@ && l[13] == "Environment"@);
        assert(l[5].len() == 10 && l[13].len() == 11);
        assert(!is_name_sep(l[13][0]));
    }
    if ti == 13 && j == 6 {
        assert(l[6] == "Obligation"@ && l[13] == "Environment"@);
        assert(l[6].len() == 10 && l[13].len() == 11);
        assert(!is_name_sep(l[13][0]));
    }
    if ti == 13 && j == 7 {
        assert(l[7] == "Alter-Ego"@ && l[13] == "Environment"@);
        assert(l[7].len() == 9 && l[13].len() == 11);
        assert(!is_name_sep(l[13][1]));
    }
    if ti == 13 && j == 8 {
        assert(l[8] == "Hero"@ && l[13] == "Environment"@);
        assert(l[8].len() == 4 && l[13].len() == 11);
        assert(!is_name_sep(l[13][6]));
    }
    if ti == 13 && j == 9 {
        assert(l[9] == "Minion"@ && l[13] == "Environment"@);
        assert(l[9].len() == 6 && l[13].len() == 11);
        assert(!is_name_sep(l[13][4]));
    }
    if ti == 13 && j == 10 {
        assert(l[10] == "Treachery"@ && l[13] == "Environment"@);
        assert(l[10].len() == 9 && l[13].len() == 11);
        assert(!is_name_sep(l[13][1]));
    }
    if ti == 13 && j == 11 {
        assert(l[11] == "Player Side Scheme"@ && l[13] == "Environment"@);
        assert(l[11].len() == 18 && l[13].len() == 11);
    }
    if ti == 13 && j == 12 {
        assert(l[12] == "Side Scheme"@ && l[13] == "Environment"@);
        assert(l[12][0] != l[13][0]);
    }
    if ti == 14 && j == 0 {
        assert(l[0] == "Event"@ && l[14] == "Permanent"@);
        assert(l[0].len() == 5 && l[14].len() == 9);
        assert(!is_name_sep(l[14][3]));
    }
    if ti == 14 && j == 1 {
        assert(l[1] == "Upgrade"@ && l[14] == "Permanent"@);
        assert(l[1].len() == 7 && l[14].len() == 9);
        assert(!is_name_sep(l[14][1]));
    }
    if ti == 14 && j == 2 {
        assert(l[2] == "Ally"@ && l[14] == "Permanent"@);
        assert(l[2].len() == 4 && l[14].len() == 9);
        assert(!is_name_sep(l[14][4]));
    }
    if ti == 14 && j == 3 {
        assert(l[3] == "Support"@ && l[14] == "Permanent"@);
        assert(l[3].len() == 7 && l[14].len() == 9);
        assert(!is_name_sep(l[14][1]));
    }
    if ti == 14 && j == 4 {
        assert(l[4] == "Resource"@ && l[14] == "Permanent"@);
        assert(l[4].len() == 8 && l[14].len() == 9);
        assert(!is_name_sep(l[14][0]));
    }
    if ti == 14 && j == 5 {
        assert(l[5] == "Attachment"@ && l[14] == "Permanent"@);
        assert(l[5].len() == 10 && l[14].len() == 9);
    }
    if ti == 14 && j == 6 {
        assert(l[6] == "Obligation"@ && l[14] == "Permanent"@);
        assert(l[6].len() == 10 && l[14].len() == 9);
    }
    if ti == 14 && j == 7 {
        assert(l[7] == "Alter-Ego"@ && l[14] == "Permanent"@);
        assert(l[7][0] != l[14][0]);
    }
    if ti == 14 && j == 8 {
        assert(l[8] == "Hero"@ && l[14] == "Permanent"@);
        assert(l[8].len() == 4 && l[14].len() == 9);
        assert(!is_name_sep(l[14][4]));
    }
    if ti == 14 && j == 9 {
        assert(l[9] == "Minion"@ && l[14] == "Permanent"@);
        assert(l[9].len() == 6 && l[14].len() == 9);
        assert(!is_name_sep(l[14][2]));
    }
    if ti == 14 && j == 10 {
        assert(l[10] == "Treachery"@ && l[14] == "Permanent"@);
        assert(l[10][0] != l[14][0]);
    }
    if ti == 14 && j == 11 {
        assert(l[11] == "Player Side Scheme"@ && l[14] == "Permanent"@);
        assert(l[11].len() == 18 && l[14].len() == 9);
    }
    if ti == 14 && j == 12 {
        assert(l[12] == "Side Scheme"@ && l[14] == "Permanent"@);
        assert(l[12].len() == 11 && l[14].len() == 9);
    }
    if ti == 14 && j == 13 {
        assert(l[13] == "Environment"@ && l[14] == "Permanent"@);
        assert(l[13].len() == 11 && l[14].len() == 9);
    }
}

/// No card type holds an underscore.
proof fn lemma_types_no_underscore(j: int)
    requires
        0 <= j < card_type_suffixes().len(),
    ensures
        forall|i: int| 0 <= i < card_type_suffixes()[j].len() ==> #[trigger] card_type_suffixes()[j][i] != '_',
{
    reveal_strlit("Event");
    reveal_strlit("Upgrade");
    reveal_strlit("Ally");
    reveal_strlit("Support");
    reveal_strlit("Resource");
    reveal_strlit("Attachment");
    reveal_strlit("Obligation");
    reveal_strlit("Alter-Ego");
    reveal_strlit("Hero");
    reveal_strlit("Minion");
    reveal_strlit("Treachery");
    reveal_strlit("Player Side Scheme");
    reveal_strlit("Side Scheme");
    reveal_strlit("Environment");
    reveal_strlit("Permanent");
}

proof fn lemma_replace_absent(s: Seq<char>, pat: Seq<char>, rep: Seq<char>)
    requires
        pat.len() > 0,
        forall|i: int| 0 <= i < s.len() ==> #[trigger] s[i] != pat[0],
    ensures
        replace(s, pat, rep) == s,
    decreases s.len(),
{
    if s.len() > 0 {
        if starts_with(s, pat) {
            assert(s.take(pat.len() as int)[0] == s[0]);
        }
        let rest = s.drop_first();
        assert forall|i: int| 0 <= i < rest.len() implies #[trigger] rest[i] != pat[0] by {
            assert(rest[i] == s[i + 1]);
        }
        lemma_replace_absent(rest, pat, rep);
        assert(seq![s[0]] + rest =~= s);
    }
}

proof fn lemma_words_of_letters(n: Seq<char>)
    requires
        n.len() > 0,
        forall|i: int| 0 <= i < n.len() ==> is_ascii_letter(#[trigger] n[i]),
    ensures
        words(n) == seq![n],
    decreases n.len(),
{
    let c = n.last();
    assert(is_ascii_letter(n[n.len() - 1]));
    assert(!is_white_space(c));
    if n.len() == 1 {
        assert(n.drop_last() =~= Seq::<char>::empty());
        assert(words(n.drop_last()) == Seq::<Seq<char>>::empty());
        assert(seq![c] =~= n);
        assert(Seq::<Seq<char>>::empty().push(seq![c]) =~= seq![n]);
    } else {
        let d = n.drop_last();
        assert forall|i: int| 0 <= i < d.len() implies is_ascii_letter(#[trigger] d[i]) by {
            assert(d[i] == n[i]);
        }
        lemma_words_of_letters(d);
        assert(is_ascii_letter(n[n.len() - 2]));
        assert(!is_white_space(n[n.len() - 2]));
        assert(d.push(c) =~= n);
        assert(seq![d].update(0, d.push(c)) =~= seq![n]);
    }
}

/// A file stem made of a name of letters, an underscore and one of the
/// card types reads as the name alone: every card type of the list is
/// dropped from the end of a file name.
pub proof fn lemma_card_type_suffix_dropped(name: Seq<char>, t: Seq<char>)
    requires
        name.len() > 0,
        forall|i: int| 0 <= i < name.len() ==> is_ascii_letter(#[trigger] name[i]),
        is_card_type_name(t),
    ensures
        card_name_from_stem(name + seq!['_'] + t, None) == name,
{
    let l = card_type_suffixes();
    reveal_strlit("Event");
    reveal_strlit("Upgrade");
    reveal_strlit("Ally");
    reveal_strlit("Support");
    reveal_strlit("Resource");
    reveal_strlit("Attachment");
    reveal_strlit("Obligation");
    reveal_strlit("Alter-Ego");
    reveal_strlit("Hero");
    reveal_strlit("Minion");
    reveal_strlit("Treachery");
    reveal_strlit("Player Side Scheme");
    reveal_strlit("Side Scheme");
    reveal_strlit("Environment");
    reveal_strlit("Permanent");
    let ti: int = if t == l[0] { 0 } else if t == l[1] { 1 } else if t == l[2] { 2 } else if t == l[3] { 3 }
        else if t == l[4] { 4 } else if t == l[5] { 5 } else if t == l[6] { 6 } else if t == l[7] { 7 }
        else if t == l[8] { 8 } else if t == l[9] { 9 } else if t == l[10] { 10 } else if t == l[11] { 11 }
        else if t == l[12] { 12 } else if t == l[13] { 13 } else { 14 };
    assert(l[ti] == t);
    assert(is_ascii_letter(t.last()));
    let v = name + seq!['_'] + t;
    assert(v.last() == t.last());
    // the stem ends in a letter, so the first tidying leaves it
    assert(trim_end_digits(v) == v);
    assert(tidy_end(v) == v);
    assert forall|j: int, i: int| 0 <= j < l.len() && 0 <= i < l[j].len() implies #[trigger] l[j][i] != '_' by {
        lemma_types_no_underscore(j);
    }
    assert forall|j: int| 0 <= j < ti implies #[trigger] l[j] != t && !ends_after_sep(t, l[j]) by {
        lemma_type_pair(ti, j);
    }
    lemma_strip_walk(name, t, l, ti);
    let n = name;
    reveal_strlit("_s ");
    reveal_strlit("_s_");
    assert(is_ascii_letter(n[n.len() - 1]));
    assert(trim_end_digits(n) == n);
    assert(tidy_end(n) == n);
    assert forall|i: int| 0 <= i < n.len() implies #[trigger] n[i] != "_s "@[0] by {
        assert(is_ascii_letter(n[i]));
    }
    lemma_replace_absent(n, "_s "@, "'s "@);
    assert forall|i: int| 0 <= i < n.len() implies #[trigger] n[i] != "_s_"@[0] by {
        assert(is_ascii_letter(n[i]));
    }
    lemma_replace_absent(n, "_s_"@, "'s "@);
    let dashed = n.map_values(|c: char| dash_to_space(c));
    assert forall|i: int| 0 <= i < n.len() implies #[trigger] dashed[i] == n[i] by {
        assert(is_ascii_letter(n[i]));
    }
    assert(dashed =~= n);
    lemma_words_of_letters(n);
}

/// A file stem `<Prefix>_<Name>_<Type>` found in the folder named `Prefix`
/// (a name of letters, such as an aspect) reads as the name alone: the
/// folder's prefix is dropped from the front and the card type from the end.
pub proof fn lemma_folder_prefix_and_type_dropped(prefix: Seq<char>, name: Seq<char>, t: Seq<char>)
    requires
        name.len() > 0,
        forall|i: int| 0 <= i < name.len() ==> is_ascii_letter(#[trigger] name[i]),
        forall|i: int| 0 <= i < prefix.len() ==> is_ascii_letter(#[trigger] prefix[i]),
        is_card_type_name(t),
    ensures
        card_name_from_stem(prefix + seq!['_'] + name + seq!['_'] + t, Some(prefix)) == name,
{
    let rest = name + seq!['_'] + t;
    let stem = prefix + seq!['_'] + rest;
    assert(stem =~= prefix + seq!['_'] + name + seq!['_'] + t);
    assert(stem.take(prefix.len() as int + 1) =~= prefix.push('_'));
    assert(stem.skip(prefix.len() as int + 1) =~= rest);
    assert(strip_name_prefix(stem, prefix) == rest);
    assert(!(exists|i: int| is_first_index(prefix, '_', i))) by {
        assert forall|i: int| !is_first_index(prefix, '_', i) by {
            if 0 <= i < prefix.len() {
                assert(is_ascii_letter(prefix[i]));
            }
        }
    }
    assert(split_once(prefix, '_').is_none());
    assert(strip_context(stem, Some(prefix)) == strip_context(rest, None));
    lemma_card_type_suffix_dropped(name, t);
}

pub fn vec_eq(a: &Vec<char>, b: &Vec<char>) -> (r: bool)
    ensures
        r == (a@ == b@),
{
    if a.len() != b.len() {
        return false;
    }
    let n = a.len();
    for i in 0..n
        invariant
            n == a@.len() == b@.len(),
            forall|k: int| 0 <= k < i ==> a@[k] == b@[k],
    {
        if a[i] != b[i] {
            return false;
        }
    }
    assert(a@ =~= b@);
    true
}

fn strip_name_prefix_chars(s: &Vec<char>, name: &Vec<char>) -> (r: Vec<char>)
    ensures
        r@ == strip_name_prefix(s@, name@),
{
    let mut p = name.clone();
    p.push('_');
    if let Some(rest) = strip_prefix_chars(s, &p) {
        return rest;
    }
    let mut p = name.clone();
    p.push(' ');
    if let Some(rest) = strip_prefix_chars(s, &p) {
        return rest;
    }
    let mut p = name.clone();
    p.push('-');
    if let Some(rest) = strip_prefix_chars(s, &p) {
        return rest;
    }
    s.clone()
}

fn strip_name_suffix_chars(s: &Vec<char>, suffix: &Vec<char>) -> (r: Vec<char>)
    ensures
        r@ == strip_name_suffix(s@, suffix@),
{
    let mut p = Vec::new();
    p.push('_');
    extend_chars(&mut p, suffix);
    if has_suffix(s, &p) {
        return slice(s, 0, s.len() - p.len());
    }
    let mut p = Vec::new();
    p.push(' ');
    extend_chars(&mut p, suffix);
    if has_suffix(s, &p) {
        return slice(s, 0, s.len() - p.len());
    }
    let mut p = Vec::new();
    p.push('-');
    extend_chars(&mut p, suffix);
    if has_suffix(s, &p) {
        return slice(s, 0, s.len() - p.len());
    }
    s.clone()
}

fn tidy_end_chars(s: &Vec<char>) -> (r: Vec<char>)
    ensures
        r@ == tidy_end(s@),
{
    let s = trim_end_digits_chars(s);
    let s = trim_end_char_chars(&s, '_');
    let s = trim_end_char_chars(&s, '-');
    trim_end_char_chars(&s, ' ')
}

fn card_type_suffix_chars() -> (r: Vec<Vec<char>>)
    ensures
        views(r@) == card_type_suffixes(),
{
    let mut r: Vec<Vec<char>> = Vec::new();
    r.push(chars_of("Event"));
    r.push(chars_of("Upgrade"));
    r.push(chars_of("Ally"));
    r.push(chars_of("Support"));
    r.push(chars_of("Resource"));
    r.push(chars_of("Attachment"));
    r.push(chars_of("Obligation"));
    r.push(chars_of("Alter-Ego"));
    r.push(chars_of("Hero"));
    r.push(chars_of("Minion"));
    r.push(chars_of("Treachery"));
    r.push(chars_of("Player Side Scheme"));
    r.push(chars_of("Side Scheme"));
    r.push(chars_of("Environment"));
    r.push(chars_of("Permanent"));
    assert(views(r@) =~= card_type_suffixes());
    r
}

/// The card name that an image file stem spells; see `card_name_from_stem`.
pub fn parse_card_name_from_stem(stem: &Vec<char>, context_prefix: Option<&str>) -> (r: Vec<char>)
    ensures
        r@ == card_name_from_stem(
            stem@,
            match context_prefix {
                Some(p) => Some(p@),
                None => None,
            },
        ),
{
    let ghost prefix = match context_prefix {
        Some(p) => Some(p@),
        None => None::<Seq<char>>,
    };
    let mut name = stem.clone();
    if let Some(prefix_str) = context_prefix {
        let p = chars_of(prefix_str);
        name = strip_name_prefix_chars(&name, &p);
        if let Some(k) = find_char(&p, '_') {
            let hero = slice(&p, k + 1, p.len());
            assert(hero@ == p@.skip(k + 1));
            name = strip_name_prefix_chars(&name, &hero);
        }
    }
    assert(name@ == strip_context(stem@, prefix));
    let mut name = tidy_end_chars(&name);
    let suffixes = card_type_suffix_chars();
    assert(views(suffixes@).skip(0) == views(suffixes@));
    let ns = suffixes.len();
    for i in 0..ns
        invariant
            ns == suffixes@.len(),
            views(suffixes@) == card_type_suffixes(),
            strip_suffixes(name@, views(suffixes@).skip(i as int)) == strip_suffixes(
                tidy_end(strip_context(stem@, prefix)),
                card_type_suffixes(),
            ),
    {
        let ghost before = name@;
        assert(views(suffixes@).skip(i as int)[0] == suffixes@[i as int]@);
        assert(views(suffixes@).skip(i as int).drop_first() == views(suffixes@).skip(i + 1));
        name = strip_name_suffix_chars(&name, &suffixes[i]);
    }
    assert(views(suffixes@).skip(ns as int).len() == 0);
    let name = tidy_end_chars(&name);
    let name = replace_chars(&name, &chars_of("_s "), &chars_of("'s "));
    let name = replace_chars(&name, &chars_of("_s_"), &chars_of("'s "));
    let name = dashes_to_spaces(&name);
    collapse_white_space_chars(&name)
}

/// The stem of the file name of the path `path`, as `Path::file_stem` reads it.
pub uninterp spec fn spec_file_stem(path: Seq<char>) -> Option<Seq<char>>;

/// `Path::file_stem` (std) of the path spelled by `path`, converted to a
/// string. Its result is named: it rests on how std splits a path into
/// components and a file name into stem and extension.
#[verifier::external_body]
pub(crate) fn file_stem(path: &str) -> (r: Option<String>)
    ensures
        match r {
            Some(s) => spec_file_stem(path@) == Some(s@),
            None => spec_file_stem(path@).is_none(),
        },
{
    std::path::Path::new(path).file_stem().map(|s| s.to_string_lossy().into_owned())
}

/// The extension of the file name of the path `path`, as
/// `Path::extension` reads it.
pub uninterp spec fn spec_file_extension(path: Seq<char>) -> Option<Seq<char>>;

/// `Path::extension` (std) of the path spelled by `path`, converted to a
/// string. Its result is named: it rests on how std splits a path into
/// components and a file name into stem and extension.
#[verifier::external_body]
pub(crate) fn file_extension(path: &str) -> (r: Option<String>)
    ensures
        match r {
            Some(s) => spec_file_extension(path@) == Some(s@),
            None => spec_file_extension(path@).is_none(),
        },
{
    std::path::Path::new(path).extension().map(|s| s.to_string_lossy().into_owned())
}

/// The file stem of `path`, or nothing when it has none.
pub open spec fn stem_or_empty(path: Seq<char>) -> Seq<char> {
    match spec_file_stem(path) {
        Some(s) => s,
        None => Seq::<char>::empty(),
    }
}

/// The card name an image file at `file_path` shows, given the name of the
/// folder it came from (`context_prefix`); see `card_name_from_stem`.
pub fn parse_card_name_from_filename(file_path: &str, context_prefix: Option<&str>) -> (r: String)
    ensures
        r@ == card_name_from_stem(
            stem_or_empty(file_path@),
            match context_prefix {
                Some(p) => Some(p@),
                None => None,
            },
        ),
{
    let stem = match file_stem(file_path) {
        Some(s) => chars_of(s.as_str()),
        None => Vec::new(),
    };
    let name = parse_card_name_from_stem(&stem, context_prefix);
    string_from_chars(&name)
}

/// The characters of `s` that are alphanumeric or white space.
pub open spec fn keep_name_chars(s: Seq<char>) -> Seq<char>
    decreases s.len(),
{
    if s.len() == 0 {
        s
    } else if spec_is_alphanumeric(s.last()) || is_white_space(s.last()) {
        keep_name_chars(s.drop_last()).push(s.last())
    } else {
        keep_name_chars(s.drop_last())
    }
}

/// `name` as cards are compared by: lower case, with only letters, digits
/// and single spaces between words.
pub open spec fn normalized(name: Seq<char>) -> Seq<char> {
    collapse_white_space(keep_name_chars(spec_to_lowercase(name)))
}

/// `name` lower-cased, with everything but letters, digits and white space
/// dropped and white space collapsed to single spaces.
pub fn normalize_name(name: &str) -> (r: String)
    ensures
        r@ == normalized(name@),
{
    let lower = to_lowercase(name);
    let chars = chars_of(lower.as_str());
    let mut kept: Vec<char> = Vec::new();
    let n = chars.len();
    for i in 0..n
        invariant
            n == chars@.len(),
            kept@ == keep_name_chars(chars@.take(i as int)),
    {
        let c = chars[i];
        assert(chars@.take(i + 1).drop_last() == chars@.take(i as int));
        if is_alphanumeric(c) || is_whitespace(c) {
            kept.push(c);
        }
    }
    assert(chars@.take(n as int) == chars@);
    string_from_chars(&collapse_white_space_chars(&kept))
}

} // verus!
