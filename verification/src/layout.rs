use vstd::prelude::*;
use crate::types::{Card, FillOrder, GridLayout, PageSide};

verus! {

// ---------------------------------------------------------------------------
// Grid cells
// ---------------------------------------------------------------------------

/// The (row, column) of slot `index` on a page of `rows` x `cols` slots:
/// row by row for `RowMajor`, column by column for `ColumnMajor`.
pub open spec fn cell_of(index: nat, rows: nat, cols: nat, order: FillOrder) -> (nat, nat) {
    match order {
        FillOrder::RowMajor => (index / cols, index % cols),
        FillOrder::ColumnMajor => (index % rows, index / rows),
    }
}

/// The (row, column) that slot `card_index` of `grid` takes when cards fill
/// it in `order`: the cell that `calculate_card_position` and
/// `generate_positions` place the card in.
pub fn grid_cell(card_index: usize, grid: &GridLayout, order: FillOrder) -> (cell: (usize, usize))
    requires
        order == FillOrder::RowMajor ==> grid.cols > 0,
        order == FillOrder::ColumnMajor ==> grid.rows > 0,
    ensures
        (cell.0 as nat, cell.1 as nat) == cell_of(
            card_index as nat,
            grid.rows as nat,
            grid.cols as nat,
            order,
        ),
{
    match order {
        FillOrder::RowMajor => (card_index / grid.cols, card_index % grid.cols),
        FillOrder::ColumnMajor => (card_index % grid.rows, card_index / grid.rows),
    }
}

/// Slots inside a full grid land inside it, and two different slots never
/// share a cell, whichever way the grid is filled.
pub proof fn lemma_cells_fit_and_differ(i: nat, j: nat, rows: nat, cols: nat, order: FillOrder)
    requires
        rows > 0,
        cols > 0,
        i < rows * cols,
        j < rows * cols,
    ensures
        cell_of(i, rows, cols, order).0 < rows,
        cell_of(i, rows, cols, order).1 < cols,
        i != j ==> cell_of(i, rows, cols, order) != cell_of(j, rows, cols, order),
{
    match order {
        FillOrder::RowMajor => {
            lemma_div_mod_cell(i, j, cols, rows);
        },
        FillOrder::ColumnMajor => {
            assert(rows * cols == cols * rows) by (nonlinear_arith);
            lemma_div_mod_cell(i, j, rows, cols);
        },
    }
}

proof fn lemma_div_mod_cell(i: nat, j: nat, d: nat, q: nat)
    requires
        d > 0,
        q > 0,
        i < q * d,
        j < q * d,
    ensures
        i / d < q,
        i % d < d,
        i != j ==> (i / d != j / d || i % d != j % d),
{
    assert(i / d < q) by (nonlinear_arith)
        requires
            d > 0,
            i < q * d,
    ;
    assert(i == d * (i / d) + i % d) by (nonlinear_arith)
        requires
            d > 0,
    ;
    assert(j == d * (j / d) + j % d) by (nonlinear_arith)
        requires
            d > 0,
    ;
}

// ---------------------------------------------------------------------------
// Distributing cards over pages
// ---------------------------------------------------------------------------

/// A card placed in a slot of a page: the index of the card in the card
/// list and the slot's number on the page, counted in fill order.
#[derive(Debug, Clone, Copy, PartialEq, Eq)]
pub struct CardSlot {
    pub card: usize,
    pub slot: usize,
}

/// One page of the print: its number (from 1), which side it holds, and
/// the cards on it. A back page holds the backs of the cards on the front
/// page before it, in the same slots.
#[derive(Debug, Clone)]
pub struct PagePlan {
    pub page_number: usize,
    pub side: PageSide,
    pub slots: Vec<CardSlot>,
}

/// The copy counts of `cards`.
pub open spec fn copy_counts(cards: Seq<Card>) -> Seq<u32> {
    cards.map_values(|c: Card| c.copy_count)
}

/// How many cards are printed in all.
pub open spec fn total_copies(counts: Seq<u32>) -> nat
    decreases counts.len(),
{
    if counts.len() == 0 {
        0
    } else {
        total_copies(counts.drop_last()) + counts.last() as nat
    }
}

/// Every printed copy, as the index of its card: card 0 as many times as
/// it is copied, then card 1, and so on.
pub open spec fn expanded_copies(counts: Seq<u32>) -> Seq<usize>
    decreases counts.len(),
{
    if counts.len() == 0 {
        Seq::empty()
    } else {
        expanded_copies(counts.drop_last()) + Seq::new(
            counts.last() as nat,
            |j: int| (counts.len() - 1) as usize,
        )
    }
}

/// Every copy names one of the cards.
pub proof fn lemma_expanded_in_range(counts: Seq<u32>)
    ensures
        forall|i: int|
            0 <= i < expanded_copies(counts).len() ==> #[trigger] expanded_copies(counts)[i]
                < counts.len(),
    decreases counts.len(),
{
    if counts.len() > 0 {
        lemma_expanded_in_range(counts.drop_last());
        let a = expanded_copies(counts.drop_last());
        let b = Seq::new(counts.last() as nat, |j: int| (counts.len() - 1) as usize);
        assert forall|i: int| 0 <= i < expanded_copies(counts).len() implies #[trigger] expanded_copies(counts)[i]
            < counts.len() by {
            if i < a.len() {
                assert(expanded_copies(counts)[i] == a[i]);
            } else {
                assert(expanded_copies(counts)[i] == b[i - a.len()]);
            }
        }
    }
}

pub proof fn lemma_expanded_len(counts: Seq<u32>)
    ensures
        expanded_copies(counts).len() == total_copies(counts),
    decreases counts.len(),
{
    if counts.len() > 0 {
        lemma_expanded_len(counts.drop_last());
    }
}

/// How many pages of fronts `n` copies fill, `per_page` to a page.
pub open spec fn front_page_count(n: nat, per_page: nat) -> nat {
    ((n + per_page - 1) / per_page as int) as nat
}

/// How many copies front page `k` (from 0) holds.
pub open spec fn page_fill(n: nat, per_page: nat, k: nat) -> nat {
    let start = k * per_page;
    if n - start < per_page { (n - start) as nat } else { per_page }
}

/// The slots of front page `k`: the next `per_page` copies in order, in
/// slots 0, 1, 2, ...
pub open spec fn front_slots(copies: Seq<usize>, per_page: nat, k: nat) -> Seq<CardSlot> {
    Seq::new(
        page_fill(copies.len(), per_page, k),
        |j: int| CardSlot { card: copies[k * per_page + j], slot: j as usize },
    )
}

/// The cards on front pages `0..k`, read page by page and slot by slot.
pub open spec fn fronts_read(copies: Seq<usize>, per_page: nat, k: nat) -> Seq<usize>
    decreases k,
{
    if k == 0 {
        Seq::empty()
    } else {
        fronts_read(copies, per_page, (k - 1) as nat) + front_slots(
            copies,
            per_page,
            (k - 1) as nat,
        ).map_values(|s: CardSlot| s.card)
    }
}

proof fn lemma_page_bounds(n: nat, per_page: nat, k: nat)
    requires
        per_page > 0,
    ensures
        front_page_count(n, per_page) * per_page >= n,
        k < front_page_count(n, per_page) ==> k * per_page < n,
        k < front_page_count(n, per_page) ==> (k + 1) * per_page == k * per_page + per_page,
{
    let pc = front_page_count(n, per_page);
    assert(pc * per_page >= n && (k < pc ==> k * per_page < n)) by (nonlinear_arith)
        requires
            per_page > 0,
            pc == (n + per_page - 1) / per_page as int,
    ;
    assert((k + 1) * per_page == k * per_page + per_page) by (nonlinear_arith);
}

proof fn lemma_fronts_prefix(copies: Seq<usize>, per_page: nat, k: nat)
    requires
        per_page > 0,
        k <= front_page_count(copies.len(), per_page),
    ensures
        fronts_read(copies, per_page, k) == copies.take(
            if k * per_page < copies.len() { (k * per_page) as int } else { copies.len() as int },
        ),
    decreases k,
{
    let n = copies.len();
    if k == 0 {
        assert(copies.take(0) =~= Seq::<usize>::empty());
    } else {
        let j = (k - 1) as nat;
        lemma_fronts_prefix(copies, per_page, j);
        lemma_page_bounds(n, per_page, j);
        let start = j * per_page;
        let fill = page_fill(n, per_page, j);
        let page = front_slots(copies, per_page, j).map_values(|s: CardSlot| s.card);
        assert(page =~= copies.subrange(start as int, (start + fill) as int));
        assert(copies.take(start as int) + copies.subrange(start as int, (start + fill) as int) =~= copies.take(
            (start + fill) as int,
        ));
    }
}

/// Reading the front pages in order, slot by slot, gives every printed
/// copy exactly once and in card order: card 0 as often as it is copied,
/// then card 1, and so on. No page holds more cards than fit on it, and
/// none is empty.
pub proof fn lemma_fronts_list_every_copy(cards: Seq<Card>, per_page: nat)
    requires
        per_page > 0,
    ensures
        ({
            let copies = expanded_copies(copy_counts(cards));
            let pages = front_page_count(total_copies(copy_counts(cards)), per_page);
            &&& fronts_read(copies, per_page, pages) == copies
            &&& forall|k: nat|
                k < pages ==> 0 < #[trigger] front_slots(copies, per_page, k).len() <= per_page
        }),
{
    let copies = expanded_copies(copy_counts(cards));
    lemma_expanded_len(copy_counts(cards));
    let n = copies.len();
    let pages = front_page_count(n, per_page);
    lemma_fronts_prefix(copies, per_page, pages);
    lemma_page_bounds(n, per_page, 0);
    assert(copies.take(n as int) =~= copies);
    assert forall|k: nat| k < pages implies 0 < #[trigger] front_slots(copies, per_page, k).len()
        <= per_page by {
        lemma_page_bounds(n, per_page, k);
    }
}

/// Whether a card has a back to print: its own, or the default one.
pub open spec fn has_back(card: Card, default_back: bool) -> bool {
    card.back_path.is_some() || default_back
}

/// The slots of the back page of front page `k`: the same slots, less
/// those whose card has no back (left empty so the rest stay aligned).
pub open spec fn back_slots(
    cards: Seq<Card>,
    copies: Seq<usize>,
    per_page: nat,
    k: nat,
    default_back: bool,
) -> Seq<CardSlot> {
    front_slots(copies, per_page, k).filter(backed(cards, default_back))
}

/// The slots whose card has a back to print.
pub open spec fn backed(cards: Seq<Card>, default_back: bool) -> spec_fn(CardSlot) -> bool {
    |s: CardSlot| has_back(cards[s.card as int], default_back)
}

/// A back page holds only backs of cards on its front page, each in the
/// slot its front takes, so the backs stay aligned when the sheet is
/// flipped; a card whose back is printed has one to print; and a card with
/// a back always gets it.
pub proof fn lemma_backs_align_with_fronts(
    cards: Seq<Card>,
    copies: Seq<usize>,
    per_page: nat,
    k: nat,
    default_back: bool,
    s: CardSlot,
)
    ensures
        back_slots(cards, copies, per_page, k, default_back).contains(s) ==> front_slots(
            copies,
            per_page,
            k,
        ).contains(s) && has_back(cards[s.card as int], default_back),
        front_slots(copies, per_page, k).contains(s) && has_back(cards[s.card as int], default_back)
            ==> back_slots(cards, copies, per_page, k, default_back).contains(s),
{
    let fronts = front_slots(copies, per_page, k);
    let keep = backed(cards, default_back);
    if fronts.filter(keep).contains(s) {
        fronts.lemma_filter_contains_rev(keep, s);
        let i = choose|i: int| 0 <= i < fronts.filter(keep).len() && fronts.filter(keep)[i] == s;
        fronts.lemma_filter_pred(keep, i);
    }
    if fronts.contains(s) && keep(s) {
        let i = choose|i: int| 0 <= i < fronts.len() && fronts[i] == s;
        fronts.lemma_filter_contains(keep, i);
    }
}

/// With a default back every card has a back, so each back page holds
/// exactly the slots of its front page.
pub proof fn lemma_default_back_fills_back_page(cards: Seq<Card>, copies: Seq<usize>, per_page: nat, k: nat)
    ensures
        back_slots(cards, copies, per_page, k, true) == front_slots(copies, per_page, k),
{
    lemma_filter_all(front_slots(copies, per_page, k), backed(cards, true));
}

proof fn lemma_filter_all(s: Seq<CardSlot>, keep: spec_fn(CardSlot) -> bool)
    requires
        forall|x: CardSlot| #[trigger] keep(x),
    ensures
        s.filter(keep) == s,
    decreases s.len(),
{
    reveal(Seq::filter);
    if s.len() > 0 {
        lemma_filter_all(s.drop_last(), keep);
        assert(s.drop_last().push(s.last()) == s);
    }
}

/// How many pages the print has.
pub open spec fn plan_len(cards: Seq<Card>, per_page: nat, duplex: bool) -> nat {
    let fronts = front_page_count(total_copies(copy_counts(cards)), per_page);
    if duplex { 2 * fronts } else { fronts }
}

/// Page `p` (from 0) of the print: without duplex, front page `p`; with
/// it, front page `p / 2` followed by its back page.
pub open spec fn planned_page(
    cards: Seq<Card>,
    per_page: nat,
    duplex: bool,
    default_back: bool,
    p: nat,
) -> (nat, PageSide, Seq<CardSlot>) {
    let copies = expanded_copies(copy_counts(cards));
    if !duplex {
        (p + 1, PageSide::Front, front_slots(copies, per_page, p))
    } else if p % 2 == 0 {
        (p + 1, PageSide::Front, front_slots(copies, per_page, p / 2))
    } else {
        (p + 1, PageSide::Back, back_slots(cards, copies, per_page, p / 2, default_back))
    }
}

pub open spec fn page_view(page: PagePlan) -> (nat, PageSide, Seq<CardSlot>) {
    (page.page_number as nat, page.side, page.slots@)
}

/// How many cards are printed in all: the sum of the copy counts, which
/// `distribute_cards` needs to be under half the address space.
pub fn copy_count_total(cards: &Vec<Card>) -> (t: u128)
    ensures
        t == total_copies(copy_counts(cards@)),
{
    let mut t: u128 = 0;
    let n = cards.len();
    for i in 0..n
        invariant
            n == cards@.len(),
            t == total_copies(copy_counts(cards@).take(i as int)),
            t <= i * 0x1_0000_0000,
    {
        proof {
            let c = copy_counts(cards@);
            assert(c.take(i + 1).drop_last() == c.take(i as int));
            assert(c.take(i + 1).last() == cards@[i as int].copy_count);
        }
        t = t + cards[i].copy_count as u128;
    }
    assert(copy_counts(cards@).take(n as int) == copy_counts(cards@));
    t
}

/// Every copy of every card, by card index, in order.
fn expand_copies(cards: &Vec<Card>) -> (e: Vec<usize>)
    ensures
        e@ == expanded_copies(copy_counts(cards@)),
{
    let mut e: Vec<usize> = Vec::new();
    let n = cards.len();
    for i in 0..n
        invariant
            n == cards@.len(),
            e@ == expanded_copies(copy_counts(cards@).take(i as int)),
    {
        let count = cards[i].copy_count;
        let ghost before = e@;
        for j in 0..count
            invariant
                e@ == before + Seq::new(j as nat, |t: int| i),
        {
            e.push(i);
            assert(e@ == before + Seq::new((j + 1) as nat, |t: int| i));
        }
        proof {
            let c = copy_counts(cards@);
            assert(c.take(i + 1).drop_last() == c.take(i as int));
            assert(c.take(i + 1).last() == count);
            assert(Seq::new(count as nat, |t: int| i) == Seq::new(
                c.take(i + 1).last() as nat,
                |t: int| (c.take(i + 1).len() - 1) as usize,
            ));
        }
    }
    assert(copy_counts(cards@).take(n as int) == copy_counts(cards@));
    e
}

proof fn lemma_page_count(n: nat, per_page: nat, k: nat)
    requires
        per_page > 0,
        n <= k * per_page,
        k > 0 ==> (k - 1) * per_page < n,
        k == 0 ==> n == 0,
    ensures
        front_page_count(n, per_page) == k,
{
    if k > 0 {
        assert((n + per_page - 1) / per_page as int == k) by (nonlinear_arith)
            requires
                per_page > 0,
                n <= k * per_page,
                (k - 1) * per_page < n,
                k > 0,
        ;
    } else {
        assert((per_page - 1) / per_page as int == 0) by (nonlinear_arith)
            requires
                per_page > 0,
        ;
    }
}

/// Lays the cards out over pages, `grid.cards_per_page` to a page: every card
/// is repeated as many times as it is copied, the copies fill the slots of
/// the front pages in order, and with `duplex` each front page is followed
/// by a back page whose slots hold the backs of the same cards, less those
/// without a back (neither their own nor `has_default_back`). Page numbers
/// run from 1. The back page is there even when it is empty, so fronts and
/// backs stay paired.
pub fn distribute_cards(
    cards: &Vec<Card>,
    grid: &GridLayout,
    duplex: bool,
    has_default_back: bool,
) -> (pages: Vec<PagePlan>)
    requires
        grid.cards_per_page > 0,
        2 * total_copies(copy_counts(cards@)) < usize::MAX,
    ensures
        pages@.len() == plan_len(cards@, grid.cards_per_page as nat, duplex),
        forall|p: int|
            0 <= p < pages@.len() ==> #[trigger] page_view(pages@[p]) == planned_page(
                cards@,
                grid.cards_per_page as nat,
                duplex,
                has_default_back,
                p as nat,
            ),
{
    let copies = expand_copies(cards);
    let ghost counts = copy_counts(cards@);
    proof {
        lemma_expanded_len(counts);
        lemma_expanded_in_range(counts);
    }
    let n = copies.len();
    let cpp = grid.cards_per_page;
    let mut pages: Vec<PagePlan> = Vec::new();
    let mut start: usize = 0;
    let mut k: usize = 0;
    while start < n
        invariant
            n == copies@.len() == total_copies(counts),
            counts == copy_counts(cards@),
            copies@ == expanded_copies(counts),
            counts.len() == cards@.len(),
            forall|i: int| 0 <= i < copies@.len() ==> #[trigger] copies@[i] < cards@.len(),
            cpp == grid.cards_per_page > 0,
            2 * n < usize::MAX,
            start <= n,
            k <= start,
            start == k * cpp || start == n,
            start <= k * cpp,
            k > 0 ==> (k - 1) * cpp < start,
            k == 0 ==> start == 0,
            pages@.len() == if duplex { 2 * k } else { k as int },
            forall|p: int|
                0 <= p < pages@.len() ==> #[trigger] page_view(pages@[p]) == planned_page(
                    cards@,
                    cpp as nat,
                    duplex,
                    has_default_back,
                    p as nat,
                ),
        decreases n - start,
    {
        assert(start == k * cpp);
        let end = if n - start < cpp { n } else { start + cpp };
        let mut front: Vec<CardSlot> = Vec::new();
        let mut j = start;
        while j < end
            invariant
                start <= j <= end <= n == copies@.len(),
                start == k * cpp,
                end - start == page_fill(n as nat, cpp as nat, k as nat),
                front@ == front_slots(copies@, cpp as nat, k as nat).take(j - start),
            decreases end - j,
        {
            front.push(CardSlot { card: copies[j], slot: j - start });
            assert(front@ == front_slots(copies@, cpp as nat, k as nat).take(j + 1 - start));
            j = j + 1;
        }
        assert(front@ == front_slots(copies@, cpp as nat, k as nat));
        let ghost fronts_so_far = pages@;
        let front_number = if duplex { 2 * k + 1 } else { k + 1 };
        let mut back: Vec<CardSlot> = Vec::new();
        if duplex {
            let m = front.len();
            let ghost fs = front@;
            let ghost keep = backed(cards@, has_default_back);
            assert(forall|u: int| 0 <= u < fs.len() ==> #[trigger] fs[u].card == copies@[start + u]);
            for t in 0..m
                invariant
                    m == fs.len(),
                    fs == front@,
                    keep == backed(cards@, has_default_back),
                    forall|u: int| 0 <= u < fs.len() ==> #[trigger] fs[u].card < cards@.len(),
                    back@ == fs.take(t as int).filter(keep),
            {
                let s = front[t];
                proof {
                    assert(fs.take(t + 1).drop_last() == fs.take(t as int));
                    assert(fs.take(t + 1).last() == s);
                    assert(keep(s) == has_back(cards@[s.card as int], has_default_back));
                }
                if cards[s.card].back_path.is_some() || has_default_back {
                    back.push(s);
                } else {
                }
                proof {
                    reveal(Seq::filter);
                    assert(fs.take(t + 1).filter(keep) == if keep(s) {
                        fs.take(t as int).filter(keep).push(s)
                    } else {
                        fs.take(t as int).filter(keep)
                    });
                }
            }
            assert(fs.take(m as int) == fs);
        }
        pages.push(PagePlan { page_number: front_number, side: PageSide::Front, slots: front });
        if duplex {
            pages.push(PagePlan { page_number: 2 * k + 2, side: PageSide::Back, slots: back });
        }
        proof {
            assert((k + 1) * cpp == k * cpp + cpp) by (nonlinear_arith);
        }
        start = end;
        k = k + 1;
    }
    proof {
        lemma_page_count(n as nat, cpp as nat, k as nat);
    }
    pages
}

} // verus!
