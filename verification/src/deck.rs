use vstd::prelude::*;
use crate::marvelcdb::{FetchedCard, FetchedDeck, MarvelCdbCard, MarvelCdbDecklist, UnmatchedCard};
use crate::text::{chars_of, string_from_chars};

verus! {

broadcast use vstd::string::group_string_axioms;

// ---------------------------------------------------------------------------
// Ordering cards by code
// ---------------------------------------------------------------------------

/// `a` comes before `b` in the order of `String`: character by character,
/// a proper prefix first.
pub open spec fn code_less(a: Seq<char>, b: Seq<char>) -> bool
    decreases a.len(),
{
    if a.len() == 0 {
        b.len() > 0
    } else if b.len() == 0 {
        false
    } else if a[0] != b[0] {
        a[0] < b[0]
    } else {
        code_less(a.drop_first(), b.drop_first())
    }
}

/// A fetched card as plain values: code, name, copies, faction and pack.
pub type CardRow = (Seq<char>, Seq<char>, u32, Seq<char>, Seq<char>);

pub open spec fn row_of(c: FetchedCard) -> CardRow {
    (c.code@, c.name@, c.count, c.faction_code@, c.pack_code@)
}

pub open spec fn rows_of(v: Seq<FetchedCard>) -> Seq<CardRow> {
    v.map_values(|c: FetchedCard| row_of(c))
}

/// `x` put into the code-ordered `r` after every row whose code is not
/// greater than its own.
pub open spec fn insert_by_code(r: Seq<CardRow>, x: CardRow) -> Seq<CardRow>
    decreases r.len(),
{
    if r.len() == 0 {
        seq![x]
    } else if code_less(x.0, r.last().0) {
        insert_by_code(r.drop_last(), x).push(r.last())
    } else {
        r.push(x)
    }
}

/// The rows ordered by code, rows with equal codes keeping their order:
/// what a stable sort by code gives.
pub open spec fn sort_by_code(s: Seq<CardRow>) -> Seq<CardRow>
    decreases s.len(),
{
    if s.len() == 0 {
        s
    } else {
        insert_by_code(sort_by_code(s.drop_last()), s.last())
    }
}

/// No row comes after a row whose code is greater than its own.
pub open spec fn ordered_by_code(r: Seq<CardRow>) -> bool {
    forall|i: int, j: int| 0 <= i < j < r.len() ==> !code_less(#[trigger] r[j].0, #[trigger] r[i].0)
}

proof fn lemma_less_asym(a: Seq<char>, b: Seq<char>)
    ensures
        code_less(a, b) ==> !code_less(b, a),
    decreases a.len(),
{
    if a.len() > 0 && b.len() > 0 && a[0] == b[0] {
        lemma_less_asym(a.drop_first(), b.drop_first());
    }
}

proof fn lemma_not_less_trans(a: Seq<char>, b: Seq<char>, c: Seq<char>)
    requires
        !code_less(b, a),
        !code_less(c, b),
    ensures
        !code_less(c, a),
    decreases a.len(),
{
    if a.len() > 0 && b.len() > 0 && c.len() > 0 && a[0] == b[0] && b[0] == c[0] {
        lemma_not_less_trans(a.drop_first(), b.drop_first(), c.drop_first());
    }
}

proof fn lemma_insert_ordered(r: Seq<CardRow>, x: CardRow)
    requires
        ordered_by_code(r),
    ensures
        ordered_by_code(insert_by_code(r, x)),
        insert_by_code(r, x).to_multiset() == r.to_multiset().insert(x),
        forall|k: int|
            0 <= k < insert_by_code(r, x).len() ==> #[trigger] insert_by_code(r, x)[k] == x || r.contains(
                insert_by_code(r, x)[k],
            ),
        insert_by_code(r, x).len() == r.len() + 1,
    decreases r.len(),
{
    broadcast use vstd::seq_lib::group_to_multiset_ensures;

    if r.len() == 0 {
        assert(insert_by_code(r, x) == seq![x]);
        assert(seq![x] == Seq::<CardRow>::empty().push(x));
        assert(r == Seq::<CardRow>::empty());
    } else {
        let last = r.last();
        let front = r.drop_last();
        assert(front.push(last) == r);
        if code_less(x.0, last.0) {
            lemma_insert_ordered(front, x);
            let ins = insert_by_code(front, x);
            lemma_less_asym(x.0, last.0);
            assert forall|k: int| 0 <= k < ins.len() implies !code_less(last.0, #[trigger] ins[k].0) by {
                if ins[k] != x {
                    let j = choose|j: int| 0 <= j < front.len() && front[j] == ins[k];
                    assert(r[j] == front[j]);
                    assert(r[r.len() - 1] == last);
                }
            }
            let res = ins.push(last);
            assert forall|i: int, j: int| 0 <= i < j < res.len() implies !code_less(
                #[trigger] res[j].0,
                #[trigger] res[i].0,
            ) by {
                if j == res.len() - 1 {
                    assert(res[i] == ins[i]);
                } else {
                    assert(res[i] == ins[i] && res[j] == ins[j]);
                }
            }
            assert forall|k: int| 0 <= k < res.len() implies #[trigger] res[k] == x || r.contains(res[k]) by {
                if k == res.len() - 1 {
                    assert(r[r.len() - 1] == res[k]);
                } else {
                    assert(res[k] == ins[k]);
                    if ins[k] != x {
                        let j = choose|j: int| 0 <= j < front.len() && front[j] == ins[k];
                        assert(r[j] == front[j]);
                    }
                }
            }
        } else {
            let res = r.push(x);
            assert forall|i: int, j: int| 0 <= i < j < res.len() implies !code_less(
                #[trigger] res[j].0,
                #[trigger] res[i].0,
            ) by {
                if j == res.len() - 1 {
                    if i < r.len() - 1 {
                        assert(r[r.len() - 1] == last);
                        lemma_not_less_trans(r[i].0, last.0, x.0);
                    }
                } else {
                    assert(res[i] == r[i] && res[j] == r[j]);
                }
            }
            assert forall|k: int| 0 <= k < res.len() implies #[trigger] res[k] == x || r.contains(res[k]) by {
                if k < r.len() {
                    assert(res[k] == r[k]);
                }
            }
        }
    }
}

/// Ordering cards by code loses and adds no card, and puts them in code
/// order: no card comes after one with a greater code.
pub proof fn lemma_sort_by_code(s: Seq<CardRow>)
    ensures
        ordered_by_code(sort_by_code(s)),
        sort_by_code(s).to_multiset() == s.to_multiset(),
    decreases s.len(),
{
    broadcast use vstd::seq_lib::group_to_multiset_ensures;

    if s.len() > 0 {
        lemma_sort_by_code(s.drop_last());
        lemma_insert_ordered(sort_by_code(s.drop_last()), s.last());
        assert(s.drop_last().push(s.last()) == s);
    }
}

/// Whether `a` sorts before `b`.
fn chars_less(a: &Vec<char>, b: &Vec<char>) -> (r: bool)
    ensures
        r == code_less(a@, b@),
{
    let n = a.len();
    let m = b.len();
    let mut i: usize = 0;
    assert(a@.skip(0) == a@ && b@.skip(0) == b@);
    while i < n && i < m
        invariant
            n == a@.len(),
            m == b@.len(),
            i <= n,
            i <= m,
            a@.skip(i as int).len() == n - i,
            forall|k: int| 0 <= k < i ==> a@[k] == b@[k],
            code_less(a@, b@) == code_less(a@.skip(i as int), b@.skip(i as int)),
        decreases n - i,
    {
        if a[i] != b[i] {
            assert(a@.skip(i as int)[0] == a@[i as int]);
            assert(b@.skip(i as int)[0] == b@[i as int]);
            return a[i] < b[i];
        }
        assert(a@.skip(i as int).drop_first() == a@.skip(i + 1));
        assert(b@.skip(i as int).drop_first() == b@.skip(i + 1));
        i = i + 1;
    }
    i < m
}

fn card_less(a: &FetchedCard, b: &FetchedCard) -> (r: bool)
    ensures
        r == code_less(a.code@, b.code@),
{
    chars_less(&chars_of(a.code.as_str()), &chars_of(b.code.as_str()))
}

/// Sorts cards by code, keeping cards with equal codes in order.
pub fn sort_cards_by_code(cards: Vec<FetchedCard>) -> (r: Vec<FetchedCard>)
    ensures
        rows_of(r@) == sort_by_code(rows_of(cards@)),
{
    let mut r: Vec<FetchedCard> = Vec::new();
    let ghost all = cards@;
    let total = cards.len();
    assert(all.len() == total);
    let mut rest = cards;
    let mut i: usize = 0;
    while rest.len() > 0
        invariant
            i + rest@.len() == all.len(),
            all.len() <= usize::MAX,
            rest@ == all.skip(i as int),
            rows_of(r@) == sort_by_code(rows_of(all.take(i as int))),
        decreases rest@.len(),
    {
        let x = rest.remove(0);
        let ghost xr = row_of(x);
        assert(x == all[i as int]);
        let ghost sorted = rows_of(r@);
        let mut j = r.len();
        assert(sorted.take(j as int) == sorted && sorted.skip(j as int).len() == 0);
        assert(insert_by_code(sorted.take(j as int), xr) + sorted.skip(j as int) == insert_by_code(sorted, xr));
        while j > 0 && card_less(&x, &r[j - 1])
            invariant
                j <= r@.len(),
                rows_of(r@) == sorted,
                xr == row_of(x),
                insert_by_code(sorted, xr) == insert_by_code(sorted.take(j as int), xr) + sorted.skip(
                    j as int,
                ),
            decreases j,
        {
            proof {
                let t = sorted.take(j as int);
                assert(t.last() == sorted[j - 1]);
                assert(t.drop_last() == sorted.take(j - 1));
                assert(sorted.skip(j - 1) == seq![sorted[j - 1]] + sorted.skip(j as int));
                assert(insert_by_code(t, xr) == insert_by_code(sorted.take(j - 1), xr).push(t.last()));
                assert(insert_by_code(sorted.take(j - 1), xr).push(t.last()) + sorted.skip(j as int)
                    == insert_by_code(sorted.take(j - 1), xr) + sorted.skip(j - 1));
            }
            j = j - 1;
        }
        proof {
            let t = sorted.take(j as int);
            if j > 0 {
                assert(t.last() == sorted[j - 1]);
            }
            assert(insert_by_code(t, xr) == t.push(xr));
        }
        r.insert(j, x);
        proof {
            let c = rows_of(all.take(i + 1));
            assert(all.take(i + 1).drop_last() == all.take(i as int));
            assert(c.drop_last() == rows_of(all.take(i as int)));
            assert(c.last() == xr);
            assert(rows_of(r@) == sorted.take(j as int).push(xr) + sorted.skip(j as int));
            assert(rest@ == all.skip(i + 1));
        }
        i = i + 1;
    }
    assert(all.take(i as int) == all);
    r
}

// ---------------------------------------------------------------------------
// Putting a fetched deck together
// ---------------------------------------------------------------------------

/// What was fetched of the deck's hero.
pub enum HeroCards {
    /// The deck names no hero.
    NoHero,
    /// The hero's signature cards could not be fetched.
    Failed,
    /// The hero's signature cards were fetched; `hero_card` is the hero's
    /// own card, when it could be fetched again.
    Fetched { hero_card: Option<MarvelCdbCard>, signature: Vec<MarvelCdbCard> },
}

/// The row of a card printed `count` times, filed under `faction`.
pub open spec fn card_row(c: MarvelCdbCard, count: u32, faction: Seq<char>) -> CardRow {
    (c.code@, c.name@, count, faction, c.pack_code@)
}

/// The rows of the deck's slot cards, each with its slot's count.
pub open spec fn slot_rows(slot_cards: Seq<(MarvelCdbCard, u32)>) -> Seq<CardRow> {
    slot_cards.map_values(|e: (MarvelCdbCard, u32)| card_row(e.0, e.1, e.0.faction_code@))
}

/// Whether `code` is one of the deck's slot codes.
pub open spec fn in_slots(slots: Seq<(String, u32)>, code: Seq<char>) -> bool {
    exists|k: int| 0 <= k < slots.len() && #[trigger] slots[k].0@ == code
}

/// The signature cards not already in the deck's slots, one copy each,
/// filed under the hero.
pub open spec fn signature_rows(signature: Seq<MarvelCdbCard>, slots: Seq<(String, u32)>) -> Seq<CardRow>
    decreases signature.len(),
{
    if signature.len() == 0 {
        Seq::empty()
    } else {
        let rest = signature_rows(signature.drop_last(), slots);
        let c = signature.last();
        if in_slots(slots, c.code@) {
            rest
        } else {
            rest.push(card_row(c, 1, "hero"@))
        }
    }
}

/// The hero card and the alter-ego on its other side, one copy each.
pub open spec fn hero_rows(hero_card: Option<MarvelCdbCard>) -> Seq<CardRow> {
    match hero_card {
        Some(hc) => match hc.linked_card {
            Some(l) => seq![card_row(hc, 1, "hero"@), card_row(*l, 1, "hero"@)],
            None => seq![card_row(hc, 1, "hero"@)],
        },
        None => Seq::empty(),
    }
}

/// The hero's name: the hero card's, or else the decklist's, or else empty.
pub open spec fn deck_hero_name(decklist: MarvelCdbDecklist, hero: HeroCards) -> Seq<char> {
    let listed = match decklist.hero_name {
        Some(n) => n@,
        None => Seq::empty(),
    };
    match hero {
        HeroCards::Fetched { hero_card: Some(hc), .. } => hc.name@,
        _ => listed,
    }
}

/// Every card of the deck before ordering: the slot cards, then the hero
/// and alter-ego cards, then the signature cards not in the slots.
pub open spec fn deck_rows(
    decklist: MarvelCdbDecklist,
    slot_cards: Seq<(MarvelCdbCard, u32)>,
    hero: HeroCards,
) -> Seq<CardRow> {
    match hero {
        HeroCards::Fetched { hero_card, signature } => slot_rows(slot_cards) + hero_rows(hero_card)
            + signature_rows(signature@, decklist.slots@),
        _ => slot_rows(slot_cards),
    }
}

fn fetched(c: &MarvelCdbCard, count: u32, faction: String) -> (f: FetchedCard)
    ensures
        row_of(f) == card_row(*c, count, faction@),
{
    FetchedCard {
        code: c.code.clone(),
        name: c.name.clone(),
        count,
        faction_code: faction,
        pack_code: c.pack_code.clone(),
    }
}

fn hero_faction() -> (s: String)
    ensures
        s@ == "hero"@,
{
    string_from_chars(&chars_of("hero"))
}

fn slot_has_code(slots: &Vec<(String, u32)>, code: &String) -> (b: bool)
    ensures
        b == in_slots(slots@, code@),
{
    let n = slots.len();
    for k in 0..n
        invariant
            n == slots@.len(),
            forall|t: int| 0 <= t < k ==> slots@[t].0@ != code@,
    {
        if slots[k].0 == *code {
            return true;
        }
    }
    false
}

/// Puts a fetched deck together, as fetching a MarvelCDB deck does once
/// the service has answered: `slot_cards` are the cards of the deck's
/// slots that could be fetched, with their slot counts; `hero` is what was
/// fetched of its hero. The cards come out ordered by code (stably).
pub fn assemble_deck(
    decklist: &MarvelCdbDecklist,
    slot_cards: &Vec<(MarvelCdbCard, u32)>,
    hero: &HeroCards,
) -> (deck: FetchedDeck)
    ensures
        deck.deck_name@ == decklist.name@,
        deck.hero_name@ == deck_hero_name(*decklist, *hero),
        rows_of(deck.cards@) == sort_by_code(deck_rows(*decklist, slot_cards@, *hero)),
{
    let mut cards: Vec<FetchedCard> = Vec::new();
    let n = slot_cards.len();
    for i in 0..n
        invariant
            n == slot_cards@.len(),
            rows_of(cards@) == slot_rows(slot_cards@.take(i as int)),
    {
        let (c, count) = &slot_cards[i];
        let f = fetched(c, *count, c.faction_code.clone());
        let ghost before = rows_of(cards@);
        cards.push(f);
        assert(rows_of(cards@) == before.push(row_of(f)));
        assert(slot_rows(slot_cards@.take(i + 1)) == slot_rows(slot_cards@.take(i as int)).push(
            card_row(slot_cards@[i as int].0, slot_cards@[i as int].1, slot_cards@[i as int].0.faction_code@),
        ));
    }
    assert(slot_cards@.take(n as int) == slot_cards@);
    let listed: String = match &decklist.hero_name {
        Some(name) => name.clone(),
        None => String::new(),
    };
    let hero_name = match hero {
        HeroCards::Fetched { hero_card, signature } => {
            let ghost before = rows_of(cards@);
            let name = match hero_card {
                Some(hc) => {
                    cards.push(fetched(hc, 1, hero_faction()));
                    match &hc.linked_card {
                        Some(l) => {
                            cards.push(fetched(l, 1, hero_faction()));
                        },
                        None => {},
                    }
                    hc.name.clone()
                },
                None => listed,
            };
            assert(rows_of(cards@) == before + hero_rows(*hero_card));
            let ghost mid = rows_of(cards@);
            let m = signature.len();
            for k in 0..m
                invariant
                    m == signature@.len(),
                    rows_of(cards@) == mid + signature_rows(signature@.take(k as int), decklist.slots@),
            {
                let c = &signature[k];
                proof {
                    assert(signature@.take(k + 1).drop_last() == signature@.take(k as int));
                    assert(signature@.take(k + 1).last() == *c);
                }
                if !slot_has_code(&decklist.slots, &c.code) {
                    let ghost prev = rows_of(cards@);
                    let f = fetched(c, 1, hero_faction());
                    cards.push(f);
                    assert(rows_of(cards@) == prev.push(row_of(f)));
                }
            }
            assert(signature@.take(m as int) == signature@);
            name
        },
        _ => listed,
    };
    FetchedDeck {
        deck_name: decklist.name.clone(),
        hero_name,
        cards: sort_cards_by_code(cards),
    }
}

/// A deck card left without an image, as plain values: name, copies,
/// faction and pack.
pub open spec fn unmatched_view(u: UnmatchedCard) -> (Seq<char>, u32, Seq<char>, Seq<char>) {
    (u.name@, u.count, u.faction@, u.pack_code@)
}

/// Every card of the deck, as left without an image: what a fetch reports
/// when no image source is set up to match the cards against.
pub fn unmatched_cards(deck: &FetchedDeck) -> (r: Vec<UnmatchedCard>)
    ensures
        r@.len() == deck.cards@.len(),
        forall|i: int|
            0 <= i < r@.len() ==> #[trigger] unmatched_view(r@[i]) == (
                deck.cards@[i].name@,
                deck.cards@[i].count,
                deck.cards@[i].faction_code@,
                deck.cards@[i].pack_code@,
            ),
{
    let mut r: Vec<UnmatchedCard> = Vec::new();
    let n = deck.cards.len();
    for i in 0..n
        invariant
            n == deck.cards@.len(),
            r@.len() == i,
            forall|k: int|
                0 <= k < i ==> #[trigger] unmatched_view(r@[k]) == (
                    deck.cards@[k].name@,
                    deck.cards@[k].count,
                    deck.cards@[k].faction_code@,
                    deck.cards@[k].pack_code@,
                ),
    {
        let c = &deck.cards[i];
        r.push(
            UnmatchedCard {
                name: c.name.clone(),
                count: c.count,
                faction: c.faction_code.clone(),
                pack_code: c.pack_code.clone(),
            },
        );
    }
    r
}

/// The cards of a hero's pack that are its signature cards: those of the
/// hero faction, other than the hero card itself.
pub open spec fn is_signature(c: MarvelCdbCard, hero_code: Seq<char>) -> bool {
    c.faction_code@ == "hero"@ && c.code@ != hero_code
}

/// Picks the hero's signature cards out of the cards of its pack, in order.
pub fn signature_cards(pack_cards: Vec<MarvelCdbCard>, hero_code: &String) -> (r: Vec<MarvelCdbCard>)
    ensures
        r@ == pack_cards@.filter(|c: MarvelCdbCard| is_signature(c, hero_code@)),
{
    let hero = hero_faction();
    let ghost keep = |c: MarvelCdbCard| is_signature(c, hero_code@);
    let mut r: Vec<MarvelCdbCard> = Vec::new();
    let total = pack_cards.len();
    let mut rest = pack_cards;
    let ghost all = rest@;
    assert(all.len() == total);
    let mut taken: usize = 0;
    while rest.len() > 0
        invariant
            hero@ == "hero"@,
            keep == (|c: MarvelCdbCard| is_signature(c, hero_code@)),
            taken + rest@.len() == all.len(),
            all.len() <= usize::MAX,
            rest@ == all.skip(taken as int),
            r@ == all.take(taken as int).filter(keep),
        decreases rest@.len(),
    {
        let c = rest.remove(0);
        proof {
            assert(all.take(taken + 1).drop_last() == all.take(taken as int));
            assert(all.take(taken + 1).last() == c);
            assert(rest@ == all.skip(taken + 1));
            reveal(Seq::filter);
        }
        if c.faction_code == hero && !(c.code == *hero_code) {
            r.push(c);
        }
        taken = taken + 1;
    }
    assert(all.take(taken as int) == all);
    r
}

} // verus!
