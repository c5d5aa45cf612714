use vstd::prelude::*;
use std::time::SystemTime;
use crate::marvelcdb::{
    file_extension, spec_file_extension, card_name_from_stem, file_stem, normalize_name, normalized, parse_card_name_from_filename,
    stem_or_empty,
};
use crate::text::{
    chars_of, extend_chars, find_char, has_prefix, last_index, rfind_char, slice,
    spec_char_to_uppercase, split_chars, split_on, split_once, starts_with, string_from_chars,
    trim, trim_chars, before_first, char_to_uppercase, views, lemma_split_on_pieces,
    spec_to_lowercase, to_lowercase,
};

verus! {

broadcast use vstd::string::group_string_axioms;

// --- API types ---

/// A file or folder listed by the Google Drive API.
#[derive(Debug, Clone)]
pub struct DriveFile {
    pub id: String,
    pub name: String,
    pub mime_type: String,
}

// --- Messages ---

#[derive(Debug)]
pub enum GoogleDriveMessage {
    IndexBuildProgress { folders_scanned: usize, total_folders: usize },
    IndexBuildComplete { file_count: usize, updated_at: u64 },
    Failed(String),
}

// --- Folder map ---

/// A hero's folder on the Drive.
#[derive(Debug, Clone)]
pub struct HeroFolder {
    pub folder_id: String,
    pub folder_name: String,
    pub hero_name: String,
}

/// Where the card images live on the Drive: one folder per aspect, keyed by
/// the aspect's lower-case name, and one folder per hero.
#[derive(Debug, Clone, Default)]
pub struct FolderMap {
    /// (aspect name, folder id) pairs; no aspect name occurs twice.
    pub aspect_folders: Vec<(String, String)>,
    pub hero_folders: Vec<HeroFolder>,
}

/// The views of a sequence of strings.
pub open spec fn str_views(v: Seq<String>) -> Seq<Seq<char>> {
    v.map_values(|s: String| s@)
}

/// `[x]` for `Some(x)`, `[]` for `None`.
pub open spec fn opt_seq(o: Option<Seq<char>>) -> Seq<Seq<char>> {
    match o {
        Some(x) => seq![x],
        None => Seq::<Seq<char>>::empty(),
    }
}

/// The ids of the hero folders whose normalized hero name is `hero` or `pack`, in order.
pub open spec fn matching_hero_folders(hs: Seq<HeroFolder>, hero: Seq<char>, pack: Seq<char>) -> Seq<Seq<char>>
    decreases hs.len(),
{
    if hs.len() == 0 {
        Seq::<Seq<char>>::empty()
    } else {
        let r = matching_hero_folders(hs.drop_last(), hero, pack);
        let n = normalized(hs.last().hero_name@);
        if n == hero || n == pack {
            r.push(hs.last().folder_id@)
        } else {
            r
        }
    }
}

/// Ids of all the folders, aspects first.
pub open spec fn all_ids(m: FolderMap) -> Seq<Seq<char>> {
    m.aspect_folders@.map_values(|e: (String, String)| e.1@) + m.hero_folders@.map_values(
        |h: HeroFolder| h.folder_id@,
    )
}

/// Dropping repeats from `s` after the items already `seen` leaves no
/// item twice, given that `seen` has none twice.
proof fn lemma_remove_duplicates_unique(s: Seq<Seq<char>>, seen: Seq<Seq<char>>)
    requires
        seen.no_duplicates(),
    ensures
        s.remove_duplicates(seen).no_duplicates(),
    decreases s.len(),
{
    if s.len() > 0 {
        if seen.contains(s[0]) {
            lemma_remove_duplicates_unique(s.skip(1), seen);
        } else {
            let seen2 = seen + seq![s[0]];
            assert forall|i: int, j: int| 0 <= i < seen2.len() && 0 <= j < seen2.len() && i != j implies seen2[i]
                != seen2[j] by {
                if j == seen.len() {
                    assert(seen2[i] == seen[i]);
                } else if i == seen.len() {
                    assert(seen2[j] == seen[j]);
                } else {
                    assert(seen2[i] == seen[i] && seen2[j] == seen[j]);
                }
            }
            lemma_remove_duplicates_unique(s.skip(1), seen2);
        }
    }
}

/// The (lower-cased name, id) of each folder of a listing, in order.
pub open spec fn listed_aspects(listing: Seq<DriveFile>) -> Seq<(Seq<char>, Seq<char>)>
    decreases listing.len(),
{
    if listing.len() == 0 {
        Seq::empty()
    } else {
        let rest = listed_aspects(listing.drop_last());
        let f = listing.last();
        if f.mime_type@ == folder_mime_type() {
            rest.push((spec_to_lowercase(f.name@), f.id@))
        } else {
            rest
        }
    }
}

/// The id last listed under the name `n`.
pub open spec fn last_listed(entries: Seq<(Seq<char>, Seq<char>)>, n: Seq<char>) -> Option<Seq<char>>
    decreases entries.len(),
{
    if entries.len() == 0 {
        None
    } else if entries.last().0 == n {
        Some(entries.last().1)
    } else {
        last_listed(entries.drop_last(), n)
    }
}

/// A hero folder as plain values: id, folder name and hero name.
pub open spec fn hero_view(h: HeroFolder) -> (Seq<char>, Seq<char>, Seq<char>) {
    (h.folder_id@, h.folder_name@, h.hero_name@)
}

pub open spec fn hero_views(hs: Seq<HeroFolder>) -> Seq<(Seq<char>, Seq<char>, Seq<char>)> {
    hs.map_values(|h: HeroFolder| hero_view(h))
}

/// The hero folders of a listing, in order: (id, folder name, hero name).
pub open spec fn listed_heroes(listing: Seq<DriveFile>) -> Seq<(Seq<char>, Seq<char>, Seq<char>)>
    decreases listing.len(),
{
    if listing.len() == 0 {
        Seq::empty()
    } else {
        let rest = listed_heroes(listing.drop_last());
        let f = listing.last();
        if f.mime_type@ == folder_mime_type() {
            rest.push((f.id@, f.name@, hero_name_from_folder(f.name@)))
        } else {
            rest
        }
    }
}

/// What a top-level folder of the card collection holds.
#[derive(Debug, Clone, Copy, PartialEq, Eq)]
pub enum TopFolder {
    /// The aspects folder, holding one folder per aspect.
    Aspects,
    /// The heroes folder, holding one folder per hero.
    Heroes,
    /// Anything else.
    Other,
}

/// Which top-level folder `f` is, by its lower-cased name: `aspects` or
/// `aspect`; `heros`, `heroes` or `hero`. Files are `Other`.
pub open spec fn top_folder_kind(f: DriveFile) -> TopFolder {
    let l = spec_to_lowercase(f.name@);
    if f.mime_type@ != folder_mime_type() {
        TopFolder::Other
    } else if l == "aspects"@ || l == "aspect"@ {
        TopFolder::Aspects
    } else if l == "heros"@ || l == "heroes"@ || l == "hero"@ {
        TopFolder::Heroes
    } else {
        TopFolder::Other
    }
}

fn literal(s: &str) -> (r: String)
    ensures
        r@ == s@,
{
    string_from_chars(&chars_of(s))
}

/// Tells the aspects and heroes folders of the collection's top level
/// apart from everything else, as building the folder map does.
pub fn classify_top_folder(item: &DriveFile) -> (k: TopFolder)
    ensures
        k == top_folder_kind(*item),
{
    if !is_folder(item.mime_type.as_str()) {
        return TopFolder::Other;
    }
    let l = to_lowercase(item.name.as_str());
    if l == literal("aspects") || l == literal("aspect") {
        TopFolder::Aspects
    } else if l == literal("heros") || l == literal("heroes") || l == literal("hero") {
        TopFolder::Heroes
    } else {
        TopFolder::Other
    }
}

impl FolderMap {
    /// No aspect name occurs twice.
    pub open spec fn wf(&self) -> bool {
        forall|i: int, j: int|
            0 <= i < j < self.aspect_folders@.len() ==> self.aspect_folders@[i].0@
                != self.aspect_folders@[j].0@
    }

    /// `i` is the first entry for the aspect called `name`.
    pub open spec fn is_first_aspect(&self, name: Seq<char>, i: int) -> bool {
        &&& 0 <= i < self.aspect_folders@.len()
        &&& self.aspect_folders@[i].0@ == name
        &&& forall|k: int| 0 <= k < i ==> self.aspect_folders@[k].0@ != name
    }

    /// The folder id of the aspect called `name`.
    pub open spec fn aspect_id(&self, name: Seq<char>) -> Option<Seq<char>> {
        if exists|i: int| self.is_first_aspect(name, i) {
            Some(self.aspect_folders@[choose|i: int| self.is_first_aspect(name, i)].1@)
        } else {
            None
        }
    }

    /// The folders searched for a card: its aspect's folder, the basic
    /// folder (for a card that is not basic itself), and the folders of the
    /// heroes named `hero_name` or `pack_code`, each folder once, in that order.
    pub open spec fn faction_folders(&self, faction: Seq<char>, hero_name: Seq<char>, pack_code: Seq<char>) -> Seq<Seq<char>> {
        let mapped = aspect_for_faction(faction);
        let aspect = opt_seq(self.aspect_id(mapped));
        let basic = if mapped != "basic"@ {
            opt_seq(self.aspect_id("basic"@))
        } else {
            Seq::<Seq<char>>::empty()
        };
        let heroes = matching_hero_folders(
            self.hero_folders@,
            normalized(hero_name),
            normalized(pack_code),
        );
        (aspect + basic + heroes).remove_duplicates(Seq::<Seq<char>>::empty())
    }

    proof fn lemma_aspect_id_listed(&self, name: Seq<char>)
        ensures
            self.aspect_id(name) matches Some(x) ==> all_ids(*self).contains(x),
    {
        if exists|i: int| self.is_first_aspect(name, i) {
            let c = choose|i: int| self.is_first_aspect(name, i);
            let aspects = self.aspect_folders@.map_values(|e: (String, String)| e.1@);
            let heroes = self.hero_folders@.map_values(|h: HeroFolder| h.folder_id@);
            assert(all_ids(*self)[c] == aspects[c]);
        }
    }

    proof fn lemma_hero_ids_listed(&self, hs: Seq<HeroFolder>, hero: Seq<char>, pack: Seq<char>)
        requires
            hs == self.hero_folders@.take(hs.len() as int),
            hs.len() <= self.hero_folders@.len(),
        ensures
            forall|x: Seq<char>|
                #[trigger] matching_hero_folders(hs, hero, pack).contains(x) ==> all_ids(*self).contains(x),
        decreases hs.len(),
    {
        if hs.len() > 0 {
            let k = hs.len() - 1;
            assert(hs.drop_last() == self.hero_folders@.take(k));
            self.lemma_hero_ids_listed(hs.drop_last(), hero, pack);
            let aspects = self.aspect_folders@.map_values(|e: (String, String)| e.1@);
            assert(all_ids(*self)[aspects.len() + k] == hs.last().folder_id@);
            let r = matching_hero_folders(hs.drop_last(), hero, pack);
            assert forall|x: Seq<char>|
                #[trigger] matching_hero_folders(hs, hero, pack).contains(x) implies all_ids(*self).contains(x) by {
                let m = matching_hero_folders(hs, hero, pack);
                let i = choose|i: int| 0 <= i < m.len() && m[i] == x;
                if i < r.len() {
                    assert(m[i] == r[i]);
                    assert(r.contains(x));
                }
            }
        }
    }

    /// The folders searched for a card are folders of the map, and none is
    /// searched twice; so the fallback search over every other folder of
    /// the map covers exactly the folders not yet searched.
    pub proof fn lemma_faction_folders_are_map_folders(
        &self,
        faction: Seq<char>,
        hero_name: Seq<char>,
        pack_code: Seq<char>,
    )
        ensures
            self.faction_folders(faction, hero_name, pack_code).no_duplicates(),
            forall|x: Seq<char>|
                #[trigger] self.faction_folders(faction, hero_name, pack_code).contains(x)
                    ==> all_ids(*self).contains(x),
    {
        let mapped = aspect_for_faction(faction);
        let aspect = opt_seq(self.aspect_id(mapped));
        let basic = if mapped != "basic"@ {
            opt_seq(self.aspect_id("basic"@))
        } else {
            Seq::<Seq<char>>::empty()
        };
        let heroes = matching_hero_folders(
            self.hero_folders@,
            normalized(hero_name),
            normalized(pack_code),
        );
        let cand = aspect + basic + heroes;
        let none = Seq::<Seq<char>>::empty();
        lemma_remove_duplicates_unique(cand, none);
        cand.lemma_remove_duplicates_properties(none);
        assert(cand + none == cand);
        self.lemma_aspect_id_listed(mapped);
        self.lemma_aspect_id_listed("basic"@);
        assert(self.hero_folders@.take(self.hero_folders@.len() as int) == self.hero_folders@);
        self.lemma_hero_ids_listed(self.hero_folders@, normalized(hero_name), normalized(pack_code));
        assert forall|x: Seq<char>|
            #[trigger] self.faction_folders(faction, hero_name, pack_code).contains(x) implies all_ids(
            *self,
        ).contains(x) by {
            assert(cand.contains(x));
            let i = choose|i: int| 0 <= i < cand.len() && cand[i] == x;
            if i < aspect.len() {
                assert(aspect[i] == x);
            } else if i < aspect.len() + basic.len() {
                assert(basic[i - aspect.len()] == x);
            } else {
                assert(heroes[i - aspect.len() - basic.len()] == x);
                assert(heroes.contains(x));
            }
        }
    }

    /// An empty map.
    pub fn new() -> (m: Self)
        ensures
            m.aspect_folders@.len() == 0,
            m.hero_folders@.len() == 0,
            m.wf(),
    {
        FolderMap { aspect_folders: Vec::new(), hero_folders: Vec::new() }
    }

    /// Records `id` as the folder of the aspect called `name`, replacing the
    /// folder it had.
    pub fn insert_aspect_folder(&mut self, name: String, id: String)
        requires
            old(self).wf(),
        ensures
            final(self).wf(),
            final(self).hero_folders == old(self).hero_folders,
            final(self).aspect_id(name@) == Some(id@),
            forall|n: Seq<char>| n != name@ ==> final(self).aspect_id(n) == old(self).aspect_id(n),
    {
        let n = self.aspect_folders.len();
        let mut i: usize = 0;
        while i < n
            invariant
                n == self.aspect_folders@.len(),
                self == old(self),
                self.wf(),
                i <= n,
                forall|k: int| 0 <= k < i ==> self.aspect_folders@[k].0@ != name@,
            decreases n - i,
        {
            if self.aspect_folders[i].0 == name {
                let ghost before = *self;
                self.aspect_folders.set(i, (name, id));
                proof {
                    lemma_same_names_same_ids(before, *self, i as int);
                    assert(self.is_first_aspect(name@, i as int));
                }
                return;
            }
            i = i + 1;
        }
        let ghost before = *self;
        self.aspect_folders.push((name, id));
        proof {
            lemma_appended_aspect(before, *self);
            assert(self.is_first_aspect(name@, n as int));
        }
    }

    /// Records the aspect folders of a listing of the collection's aspects
    /// folder: every folder in it, under its lower-cased name. When a name
    /// is listed twice, the later folder wins.
    pub fn add_aspect_listing(&mut self, listing: &Vec<DriveFile>)
        requires
            old(self).wf(),
        ensures
            final(self).wf(),
            final(self).hero_folders == old(self).hero_folders,
            forall|n: Seq<char>|
                #[trigger] final(self).aspect_id(n) == match last_listed(listed_aspects(listing@), n) {
                    Some(id) => Some(id),
                    None => old(self).aspect_id(n),
                },
    {
        let ghost start = *self;
        let m = listing.len();
        for i in 0..m
            invariant
                m == listing@.len(),
                self.wf(),
                self.hero_folders == start.hero_folders,
                forall|n: Seq<char>|
                    #[trigger] self.aspect_id(n) == match last_listed(
                        listed_aspects(listing@.take(i as int)),
                        n,
                    ) {
                        Some(id) => Some(id),
                        None => start.aspect_id(n),
                    },
        {
            let item = &listing[i];
            proof {
                assert(listing@.take(i + 1).drop_last() == listing@.take(i as int));
                assert(listing@.take(i + 1).last() == *item);
            }
            let ghost prev = listed_aspects(listing@.take(i as int));
            let ghost before = *self;
            if is_folder(item.mime_type.as_str()) {
                let name = to_lowercase(item.name.as_str());
                let id = item.id.clone();
                let ghost e = (name@, id@);
                self.insert_aspect_folder(name, id);
                assert(listed_aspects(listing@.take(i + 1)) == prev.push(e));
                assert forall|n: Seq<char>| #[trigger] self.aspect_id(n) == match last_listed(
                    prev.push(e),
                    n,
                ) {
                    Some(id) => Some(id),
                    None => start.aspect_id(n),
                } by {
                    assert(prev.push(e).drop_last() == prev);
                    if n != e.0 {
                        assert(before.aspect_id(n) == self.aspect_id(n));
                    }
                }
            } else {
                assert(listed_aspects(listing@.take(i + 1)) == prev);
            }
        }
        assert(listing@.take(m as int) == listing@);
    }

    /// Records the hero folders of a listing of the collection's heroes
    /// folder: every folder in it, in order, with the hero name its folder
    /// name gives.
    pub fn add_hero_listing(&mut self, listing: &Vec<DriveFile>)
        ensures
            final(self).aspect_folders == old(self).aspect_folders,
            hero_views(final(self).hero_folders@) == hero_views(old(self).hero_folders@)
                + listed_heroes(listing@),
    {
        let ghost start = hero_views(self.hero_folders@);
        let m = listing.len();
        for i in 0..m
            invariant
                m == listing@.len(),
                self.aspect_folders == old(self).aspect_folders,
                hero_views(self.hero_folders@) == start + listed_heroes(listing@.take(i as int)),
        {
            let item = &listing[i];
            proof {
                assert(listing@.take(i + 1).drop_last() == listing@.take(i as int));
                assert(listing@.take(i + 1).last() == *item);
            }
            if is_folder(item.mime_type.as_str()) {
                let h = HeroFolder {
                    folder_id: item.id.clone(),
                    folder_name: item.name.clone(),
                    hero_name: extract_hero_name_from_drive(item.name.as_str()),
                };
                let ghost before = hero_views(self.hero_folders@);
                self.hero_folders.push(h);
                assert(hero_views(self.hero_folders@) == before.push(hero_view(h)));
            }
        }
        assert(listing@.take(m as int) == listing@);
    }

    /// The folder id of the aspect called `name`.
    pub fn aspect_folder(&self, name: &String) -> (r: Option<&String>)
        requires
            self.wf(),
        ensures
            match r {
                Some(id) => self.aspect_id(name@) == Some(id@),
                None => self.aspect_id(name@).is_none(),
            },
    {
        let n = self.aspect_folders.len();
        for i in 0..n
            invariant
                n == self.aspect_folders@.len(),
                forall|k: int| 0 <= k < i ==> self.aspect_folders@[k].0@ != name@,
        {
            if self.aspect_folders[i].0 == *name {
                assert(self.is_first_aspect(name@, i as int));
                return Some(&self.aspect_folders[i].1);
            }
        }
        None
    }

    /// Folder ids to search for a card of `faction`, of the hero `hero_name`,
    /// from the pack `pack_code`; see `faction_folders`.
    pub fn folders_for_faction(&self, faction: &str, hero_name: &str, pack_code: &str) -> (r: Vec<String>)
        requires
            self.wf(),
        ensures
            str_views(r@) == self.faction_folders(faction@, hero_name@, pack_code@),
    {
        let mapped = map_faction_to_aspect(faction);
        let mut candidates: Vec<String> = Vec::new();
        if let Some(id) = self.aspect_folder(&mapped) {
            candidates.push(id.clone());
        }
        let basic = string_from_chars(&chars_of("basic"));
        if !(mapped == basic) {
            if let Some(id) = self.aspect_folder(&basic) {
                candidates.push(id.clone());
            }
        }
        let ghost mapped_v = aspect_for_faction(faction@);
        let ghost head = opt_seq(self.aspect_id(mapped_v)) + if mapped_v != "basic"@ {
            opt_seq(self.aspect_id("basic"@))
        } else {
            Seq::<Seq<char>>::empty()
        };
        assert(str_views(candidates@) =~= head);
        let normalized_hero = normalize_name(hero_name);
        let normalized_pack = normalize_name(pack_code);
        let nh = self.hero_folders.len();
        for i in 0..nh
            invariant
                nh == self.hero_folders@.len(),
                normalized_hero@ == normalized(hero_name@),
                normalized_pack@ == normalized(pack_code@),
                str_views(candidates@) == head + matching_hero_folders(
                    self.hero_folders@.take(i as int),
                    normalized_hero@,
                    normalized_pack@,
                ),
        {
            let hero = &self.hero_folders[i];
            let n = normalize_name(hero.hero_name.as_str());
            assert(self.hero_folders@.take(i + 1).drop_last() == self.hero_folders@.take(i as int));
            if n == normalized_hero || n == normalized_pack {
                let ghost before = str_views(candidates@);
                candidates.push(hero.folder_id.clone());
                assert(str_views(candidates@) == before.push(hero.folder_id@));
            }
        }
        assert(self.hero_folders@.take(nh as int) == self.hero_folders@);
        dedup_strings(&candidates)
    }

    /// Ids of all the folders: the aspect folders, then the hero folders.
    pub fn all_folder_ids(&self) -> (r: Vec<String>)
        ensures
            str_views(r@) == all_ids(*self),
    {
        let mut out: Vec<String> = Vec::new();
        let na = self.aspect_folders.len();
        for i in 0..na
            invariant
                na == self.aspect_folders@.len(),
                str_views(out@) == self.aspect_folders@.take(i as int).map_values(
                    |e: (String, String)| e.1@,
                ),
        {
            let ghost before = str_views(out@);
            out.push(self.aspect_folders[i].1.clone());
            assert(self.aspect_folders@.take(i + 1) == self.aspect_folders@.take(i as int).push(
                self.aspect_folders@[i as int],
            ));
            assert(str_views(out@) =~= before.push(self.aspect_folders@[i as int].1@));
        }
        assert(self.aspect_folders@.take(na as int) == self.aspect_folders@);
        let nh = self.hero_folders.len();
        let ghost aspects = str_views(out@);
        for i in 0..nh
            invariant
                nh == self.hero_folders@.len(),
                str_views(out@) == aspects + self.hero_folders@.take(i as int).map_values(
                    |h: HeroFolder| h.folder_id@,
                ),
        {
            let ghost before = str_views(out@);
            out.push(self.hero_folders[i].folder_id.clone());
            assert(self.hero_folders@.take(i + 1) == self.hero_folders@.take(i as int).push(
                self.hero_folders@[i as int],
            ));
            assert(str_views(out@) =~= before.push(self.hero_folders@[i as int].folder_id@));
        }
        assert(self.hero_folders@.take(nh as int) == self.hero_folders@);
        assert(self.aspect_folders@.take(na as int) == self.aspect_folders@);
        out
    }
}

/// Replacing the id of entry `i` by an entry of the same name keeps every
/// other aspect's id and the map well formed.
proof fn lemma_same_names_same_ids(before: FolderMap, after: FolderMap, i: int)
    requires
        before.wf(),
        0 <= i < before.aspect_folders@.len(),
        after.aspect_folders@.len() == before.aspect_folders@.len(),
        after.aspect_folders@[i].0@ == before.aspect_folders@[i].0@,
        forall|k: int| 0 <= k < before.aspect_folders@.len() && k != i ==> after.aspect_folders@[k]
            == before.aspect_folders@[k],
    ensures
        after.wf(),
        forall|m: Seq<char>| m != before.aspect_folders@[i].0@ ==> after.aspect_id(m) == before.aspect_id(m),
{
    assert forall|k: int| 0 <= k < after.aspect_folders@.len() implies #[trigger] after.aspect_folders@[k].0@
        == before.aspect_folders@[k].0@ by {
        if k != i {
            assert(after.aspect_folders@[k] == before.aspect_folders@[k]);
        }
    }
    assert forall|m: Seq<char>| m != before.aspect_folders@[i].0@ implies after.aspect_id(m) == before.aspect_id(m) by {
        assert forall|k: int| #[trigger] after.is_first_aspect(m, k) == before.is_first_aspect(m, k) by {
            if 0 <= k < after.aspect_folders@.len() && k != i {
                assert(after.aspect_folders@[k] == before.aspect_folders@[k]);
            }
        }
        if exists|k: int| before.is_first_aspect(m, k) {
            let k = choose|k: int| before.is_first_aspect(m, k);
            assert(after.is_first_aspect(m, k));
            assert(k != i);
            assert(after.aspect_folders@[k] == before.aspect_folders@[k]);
        }
    }
}

/// Appending an entry for a new aspect keeps every other aspect's id and
/// the map well formed.
proof fn lemma_appended_aspect(before: FolderMap, after: FolderMap)
    requires
        before.wf(),
        after.aspect_folders@.len() == before.aspect_folders@.len() + 1,
        forall|k: int| 0 <= k < before.aspect_folders@.len() ==> after.aspect_folders@[k]
            == before.aspect_folders@[k],
        forall|k: int| 0 <= k < before.aspect_folders@.len() ==> before.aspect_folders@[k].0@
            != after.aspect_folders@.last().0@,
    ensures
        after.wf(),
        forall|m: Seq<char>| m != after.aspect_folders@.last().0@ ==> after.aspect_id(m) == before.aspect_id(m),
{
    let n = before.aspect_folders@.len() as int;
    assert forall|m: Seq<char>| m != after.aspect_folders@.last().0@ implies after.aspect_id(m) == before.aspect_id(m) by {
        assert forall|k: int| #[trigger] after.is_first_aspect(m, k) == before.is_first_aspect(m, k) by {
            if 0 <= k < n {
                assert(after.aspect_folders@[k] == before.aspect_folders@[k]);
                assert forall|j: int| 0 <= j < k implies after.aspect_folders@[j] == before.aspect_folders@[j] by {}
            }
        }
        if exists|k: int| before.is_first_aspect(m, k) {
            let k = choose|k: int| before.is_first_aspect(m, k);
            assert(after.is_first_aspect(m, k));
            assert(after.aspect_folders@[k] == before.aspect_folders@[k]);
        }
    }
}

/// Whether `s` occurs in `v`.
fn contains_string(v: &Vec<String>, s: &String) -> (b: bool)
    ensures
        b == str_views(v@).contains(s@),
{
    let n = v.len();
    for i in 0..n
        invariant
            n == v@.len(),
            forall|k: int| 0 <= k < i ==> v@[k]@ != s@,
    {
        if v[i] == *s {
            assert(str_views(v@)[i as int] == s@);
            return true;
        }
    }
    false
}

/// `v` with each string kept only at its first occurrence.
pub fn dedup_strings(v: &Vec<String>) -> (r: Vec<String>)
    ensures
        str_views(r@) == str_views(v@).remove_duplicates(Seq::<Seq<char>>::empty()),
{
    let mut out: Vec<String> = Vec::new();
    let n = v.len();
    let ghost sv = str_views(v@);
    assert(sv.skip(0) == sv);
    for i in 0..n
        invariant
            n == v@.len(),
            sv == str_views(v@),
            sv.remove_duplicates(Seq::<Seq<char>>::empty()) == sv.skip(i as int).remove_duplicates(
                str_views(out@),
            ),
    {
        let ghost rest = sv.skip(i as int);
        assert(rest[0] == v@[i as int]@);
        assert(rest.skip(1) == sv.skip(i + 1));
        if !contains_string(&out, &v[i]) {
            let ghost before = str_views(out@);
            out.push(v[i].clone());
            assert(str_views(out@) == before + seq![v@[i as int]@]);
        }
    }
    assert(sv.skip(n as int).len() == 0);
    out
}

// --- Drive index ---

/// `SystemTime::now` (std): the clock's reading. Nothing is promised of it.
#[verifier::external_body]
fn clock_now() -> (t: SystemTime) {
    SystemTime::now()
}

/// Whole seconds from the Unix epoch to the instant `t`; zero for an
/// instant before the epoch.
pub uninterp spec fn spec_secs_since_epoch(t: SystemTime) -> u64;

/// `SystemTime::duration_since(UNIX_EPOCH)` (std) of `t`, taken in whole
/// seconds (`Duration::as_secs`); zero where `t` lies before the epoch,
/// which is the call's error.
#[verifier::external_body]
fn secs_since_epoch(t: &SystemTime) -> (s: u64)
    ensures
        s == spec_secs_since_epoch(*t),
{
    t.duration_since(std::time::UNIX_EPOCH).map(|d| d.as_secs()).unwrap_or(0)
}

/// The time now, in whole seconds since the Unix epoch: the moment an
/// index records as made. It reads the clock, so only its form is promised.
pub fn timestamp_now() -> (s: u64)
    ensures
        exists|t: SystemTime| s == spec_secs_since_epoch(t),
{
    let t = clock_now();
    secs_since_epoch(&t)
}

/// Every file the Drive index knows of, by folder.
#[derive(Debug, Clone)]
pub struct DriveIndex {
    pub root_folder_id: String,
    pub folder_map: FolderMap,
    /// (folder id, files in that folder) pairs; no folder id occurs twice
    /// (`wf`).
    pub folder_files: Vec<(String, Vec<DriveFile>)>,
    pub updated_at: u64,
}

/// The number of files over all folders of `entries`.
pub open spec fn total_files(entries: Seq<(String, Vec<DriveFile>)>) -> nat
    decreases entries.len(),
{
    if entries.len() == 0 {
        0
    } else {
        total_files(entries.drop_last()) + entries.last().1@.len()
    }
}

/// The files listed for the folder `id`: those of its first entry.
pub open spec fn files_of(entries: Seq<(String, Vec<DriveFile>)>, id: Seq<char>) -> Option<Seq<DriveFile>>
    decreases entries.len(),
{
    if entries.len() == 0 {
        None
    } else if entries[0].0@ == id {
        Some(entries[0].1@)
    } else {
        files_of(entries.drop_first(), id)
    }
}

/// No folder id occurs twice in `entries`.
pub open spec fn folder_ids_distinct(entries: Seq<(String, Vec<DriveFile>)>) -> bool {
    forall|i: int, j: int|
        0 <= i < j < entries.len() ==> #[trigger] entries[i].0@ != #[trigger] entries[j].0@
}

/// Whether some entry of `entries` is for the folder `id`.
pub open spec fn lists_folder(entries: Seq<(String, Vec<DriveFile>)>, id: Seq<char>) -> bool {
    exists|k: int| 0 <= k < entries.len() && #[trigger] entries[k].0@ == id
}

proof fn lemma_files_of_absent(entries: Seq<(String, Vec<DriveFile>)>, id: Seq<char>)
    requires
        !lists_folder(entries, id),
    ensures
        files_of(entries, id).is_none(),
    decreases entries.len(),
{
    if entries.len() > 0 {
        assert(entries[0].0@ != id);
        let rest = entries.drop_first();
        assert forall|k: int| 0 <= k < rest.len() implies #[trigger] rest[k].0@ != id by {
            assert(rest[k] == entries[k + 1]);
        }
        lemma_files_of_absent(rest, id);
    }
}

proof fn lemma_files_of_at(entries: Seq<(String, Vec<DriveFile>)>, k: int)
    requires
        folder_ids_distinct(entries),
        0 <= k < entries.len(),
    ensures
        files_of(entries, entries[k].0@) == Some(entries[k].1@),
    decreases entries.len(),
{
    if k > 0 {
        assert(entries[0].0@ != entries[k].0@);
        let rest = entries.drop_first();
        assert(rest[k - 1] == entries[k]);
        assert forall|i: int, j: int| 0 <= i < j < rest.len() implies #[trigger] rest[i].0@
            != #[trigger] rest[j].0@ by {
            assert(rest[i] == entries[i + 1] && rest[j] == entries[j + 1]);
        }
        lemma_files_of_at(rest, k - 1);
    }
}

/// For distinct folder ids: the files of `id` are those of the entry for
/// it, and none where no entry is for it.
proof fn lemma_files_of_distinct(entries: Seq<(String, Vec<DriveFile>)>, id: Seq<char>)
    requires
        folder_ids_distinct(entries),
    ensures
        lists_folder(entries, id) ==> exists|k: int|
            0 <= k < entries.len() && #[trigger] entries[k].0@ == id && files_of(entries, id) == Some(
                entries[k].1@,
            ),
        !lists_folder(entries, id) ==> files_of(entries, id).is_none(),
{
    if lists_folder(entries, id) {
        let k = choose|k: int| 0 <= k < entries.len() && #[trigger] entries[k].0@ == id;
        lemma_files_of_at(entries, k);
    } else {
        lemma_files_of_absent(entries, id);
    }
}

impl DriveIndex {
    /// No folder id occurs twice among the listed folders.
    pub open spec fn wf(&self) -> bool {
        folder_ids_distinct(self.folder_files@)
    }

    /// An index of the Drive folder `root_folder_id`, with the folders
    /// `folder_map` and no folder listed yet, made at `updated_at`.
    pub fn new(root_folder_id: String, folder_map: FolderMap, updated_at: u64) -> (idx: Self)
        ensures
            idx.wf(),
            idx.root_folder_id == root_folder_id,
            idx.folder_map == folder_map,
            idx.folder_files@ == Seq::<(String, Vec<DriveFile>)>::empty(),
            idx.updated_at == updated_at,
    {
        DriveIndex { root_folder_id, folder_map, folder_files: Vec::new(), updated_at }
    }

    /// Whether no folder id occurs twice among the listed folders (`wf`).
    pub fn folder_ids_unique(&self) -> (b: bool)
        ensures
            b == self.wf(),
    {
        let n = self.folder_files.len();
        let ghost e = self.folder_files@;
        for j in 0..n
            invariant
                n == e.len(),
                e == self.folder_files@,
                forall|a: int, b: int| 0 <= a < b < j ==> #[trigger] e[a].0@ != #[trigger] e[b].0@,
        {
            for i in 0..j
                invariant
                    j < n,
                    n == e.len(),
                    e == self.folder_files@,
                    forall|a: int, b: int| 0 <= a < b < j ==> #[trigger] e[a].0@ != #[trigger] e[b].0@,
                    forall|a: int| 0 <= a < i ==> #[trigger] e[a].0@ != e[j as int].0@,
            {
                if self.folder_files[i].0 == self.folder_files[j].0 {
                    assert(e[i as int].0@ == e[j as int].0@);
                    return false;
                }
            }
        }
        true
    }

    /// Records `files` as the files of the folder `id`: they replace what
    /// was listed for it, or are added where it was not listed. What is
    /// listed for every other folder, and the rest of the index, stay.
    pub fn record_folder_files(&mut self, id: String, files: Vec<DriveFile>)
        requires
            old(self).wf(),
        ensures
            final(self).wf(),
            files_of(final(self).folder_files@, id@) == Some(files@),
            forall|other: Seq<char>|
                other != id@ ==> files_of(final(self).folder_files@, other) == files_of(
                    old(self).folder_files@,
                    other,
                ),
            final(self).root_folder_id == old(self).root_folder_id,
            final(self).folder_map == old(self).folder_map,
            final(self).updated_at == old(self).updated_at,
    {
        let ghost e = self.folder_files@;
        let ghost idv = id@;
        let ghost fv = files@;
        let n = self.folder_files.len();
        let mut found: Option<usize> = None;
        for i in 0..n
            invariant
                n == e.len(),
                e == self.folder_files@,
                idv == id@,
                match found {
                    Some(k) => k < n && e[k as int].0@ == idv,
                    None => forall|a: int| 0 <= a < i ==> #[trigger] e[a].0@ != idv,
                },
        {
            if found.is_none() && self.folder_files[i].0 == id {
                found = Some(i);
            }
        }
        match found {
            Some(k) => {
                self.folder_files.set(k, (id, files));
            }
            None => {
                self.folder_files.push((id, files));
            }
        }
        let ghost f = self.folder_files@;
        proof {
            let kk: int = match found {
                Some(k) => k as int,
                None => n as int,
            };
            assert(f.len() == (if found is Some { n as int } else { n + 1 }));
            assert(f[kk].0@ == idv && f[kk].1@ == fv);
            assert forall|a: int| 0 <= a < f.len() && a != kk implies #[trigger] f[a] == e[a] by {}
            assert forall|a: int, b: int| 0 <= a < b < f.len() implies #[trigger] f[a].0@
                != #[trigger] f[b].0@ by {
                if a != kk && b != kk {
                    assert(f[a] == e[a] && f[b] == e[b]);
                } else if a == kk {
                    assert(f[b] == e[b]);
                    if found is None {
                        assert(e[b].0@ != idv);
                    } else {
                        assert(e[kk].0@ == idv);
                    }
                } else {
                    assert(f[a] == e[a]);
                    if found is None {
                        assert(e[a].0@ != idv);
                    } else {
                        assert(e[kk].0@ == idv);
                    }
                }
            }
            lemma_files_of_at(f, kk);
            assert forall|other: Seq<char>| other != idv implies files_of(f, other) == files_of(e, other) by {
                lemma_files_of_distinct(e, other);
                lemma_files_of_distinct(f, other);
                if lists_folder(e, other) {
                    let k = choose|k: int| 0 <= k < e.len() && #[trigger] e[k].0@ == other;
                    assert(k != kk);
                    assert(f[k] == e[k]);
                    lemma_files_of_at(e, k);
                    lemma_files_of_at(f, k);
                } else {
                    assert forall|a: int| 0 <= a < f.len() implies #[trigger] f[a].0@ != other by {
                        if a != kk {
                            assert(f[a] == e[a]);
                        }
                    }
                }
            }
        }
    }

    /// The files the index lists for the folder `folder_id`, if it has
    /// listed that folder.
    pub fn files_in(&self, folder_id: &String) -> (r: Option<&Vec<DriveFile>>)
        ensures
            match r {
                Some(v) => files_of(self.folder_files@, folder_id@) == Some(v@),
                None => files_of(self.folder_files@, folder_id@).is_none(),
            },
    {
        let n = self.folder_files.len();
        let ghost all = self.folder_files@;
        assert(all.skip(0) == all);
        for i in 0..n
            invariant
                n == all.len(),
                all == self.folder_files@,
                files_of(all, folder_id@) == files_of(all.skip(i as int), folder_id@),
        {
            assert(all.skip(i as int)[0] == all[i as int]);
            assert(all.skip(i as int).drop_first() == all.skip(i + 1));
            if self.folder_files[i].0 == *folder_id {
                return Some(&self.folder_files[i].1);
            }
        }
        None
    }

    /// How many files the index lists.
    pub fn file_count(&self) -> (n: usize)
        requires
            self.wf(),
            total_files(self.folder_files@) <= usize::MAX,
        ensures
            n == total_files(self.folder_files@),
    {
        let mut total: usize = 0;
        let n = self.folder_files.len();
        for i in 0..n
            invariant
                n == self.folder_files@.len(),
                total_files(self.folder_files@) <= usize::MAX,
                total == total_files(self.folder_files@.take(i as int)),
        {
            assert(self.folder_files@.take(i + 1).drop_last() == self.folder_files@.take(i as int));
            proof {
                lemma_total_files_prefix(self.folder_files@, i + 1);
            }
            total = total + self.folder_files[i].1.len();
        }
        assert(self.folder_files@.take(n as int) == self.folder_files@);
        total
    }
}

proof fn lemma_total_files_prefix(entries: Seq<(String, Vec<DriveFile>)>, k: int)
    requires
        0 <= k <= entries.len(),
    ensures
        total_files(entries.take(k)) <= total_files(entries),
    decreases entries.len() - k,
{
    if k < entries.len() {
        lemma_total_files_prefix(entries, k + 1);
        assert(entries.take(k + 1).drop_last() == entries.take(k));
    } else {
        assert(entries.take(k) == entries);
    }
}

// --- Helpers ---

/// The MIME type the Drive gives folders.
pub open spec fn folder_mime_type() -> Seq<char> {
    "application/vnd.google-apps.folder"@
}

/// Whether `mime_type` is that of a Drive folder.
pub fn is_folder(mime_type: &str) -> (b: bool)
    ensures
        b == (mime_type@ == folder_mime_type()),
{
    let a = chars_of(mime_type);
    let b = chars_of("application/vnd.google-apps.folder");
    crate::marvelcdb::vec_eq(&a, &b)
}

/// The extensions, lower-cased, of the image files cards are kept in.
pub open spec fn is_card_image_extension(e: Seq<char>) -> bool {
    e == "tiff"@ || e == "tif"@ || e == "png"@ || e == "jpg"@ || e == "jpeg"@
}

/// Whether a Drive file can hold a card image: it is no folder, and its
/// name's extension, lower-cased, is that of a TIFF, PNG or JPEG file.
pub open spec fn is_card_image(f: DriveFile) -> bool {
    let ext = match spec_file_extension(f.name@) {
        Some(e) => e,
        None => Seq::<char>::empty(),
    };
    f.mime_type@ != folder_mime_type() && is_card_image_extension(spec_to_lowercase(ext))
}

/// Whether a Drive file is worth matching against a card name: the files
/// of a folder that are looked at when searching it for a card.
pub fn is_card_image_file(file: &DriveFile) -> (b: bool)
    ensures
        b == is_card_image(*file),
{
    if is_folder(file.mime_type.as_str()) {
        return false;
    }
    let ext = match file_extension(file.name.as_str()) {
        Some(e) => e,
        None => String::new(),
    };
    let e = to_lowercase(ext.as_str());
    e == literal("tiff") || e == literal("tif") || e == literal("png") || e == literal("jpg") || e
        == literal("jpeg")
}

/// The aspect folder name a MarvelCDB faction is filed under: `neutral`
/// and `pool` cards are filed as `basic`, every other faction under its own
/// name.
pub open spec fn aspect_for_faction(faction: Seq<char>) -> Seq<char> {
    if faction == "neutral"@ || faction == "pool"@ {
        "basic"@
    } else {
        faction
    }
}

/// The aspect folder name for `faction`; see `aspect_for_faction`.
pub fn map_faction_to_aspect(faction: &str) -> (r: String)
    ensures
        r@ == aspect_for_faction(faction@),
{
    let f = chars_of(faction);
    if crate::marvelcdb::vec_eq(&f, &chars_of("neutral")) || crate::marvelcdb::vec_eq(&f, &chars_of("pool")) {
        string_from_chars(&chars_of("basic"))
    } else {
        string_from_chars(&f)
    }
}

/// The hero name in a Drive folder name such as `Ororo Monroe_Storm (u)`:
/// a trailing parenthetical is dropped, then what follows the first
/// underscore is the hero's name.
pub open spec fn hero_name_from_folder(dir_name: Seq<char>) -> Seq<char> {
    let name = match last_index(dir_name, '(') {
        Some(i) => trim(dir_name.take(i)),
        None => trim(dir_name),
    };
    match split_once(name, '_') {
        Some((_civilian, hero)) => hero,
        None => name,
    }
}

/// The hero name a Drive folder name holds; see `hero_name_from_folder`.
pub fn extract_hero_name_from_drive(dir_name: &str) -> (r: String)
    ensures
        r@ == hero_name_from_folder(dir_name@),
{
    let d = chars_of(dir_name);
    let name = match rfind_char(&d, '(') {
        Some(i) => {
            let head = slice(&d, 0, i);
            assert(head@ == d@.take(i as int));
            trim_chars(&head)
        },
        None => trim_chars(&d),
    };
    match find_char(&name, '_') {
        Some(k) => {
            let len = name.len();
            let hero = slice(&name, k + 1, len);
            assert(hero@ == name@.skip(k + 1));
            string_from_chars(&hero)
        },
        None => string_from_chars(&name),
    }
}

/// The first folder id in `segs` from index `i` on: the part before any
/// `?` of the segment that follows a `folders` segment, when it is not empty.
pub open spec fn folder_id_in_segments(segs: Seq<Seq<char>>, i: int) -> Option<Seq<char>>
    decreases segs.len() - i,
{
    if i < 0 || i + 1 >= segs.len() {
        None
    } else if segs[i] == "folders"@ && before_first(segs[i + 1], '?').len() > 0 {
        Some(before_first(segs[i + 1], '?'))
    } else {
        folder_id_in_segments(segs, i + 1)
    }
}

/// Why a Drive folder link could not be read.
#[derive(Debug, Clone, PartialEq, Eq)]
pub enum DriveUrlError {
    /// Nothing but white space was given.
    EmptyInput,
    /// A URL with no folder id after a `folders` segment; holds the URL.
    NoFolderId(String),
}

/// The folder id a Drive folder URL or bare id names: for an `http://` or
/// `https://` URL the first non-empty id after a `folders` segment (see
/// `folder_id_in_segments`), otherwise the trimmed input itself.
pub open spec fn drive_folder_id(input: Seq<char>) -> Result<Seq<char>, DriveUrlError> {
    let t = trim(input);
    if t.len() == 0 {
        Err(DriveUrlError::EmptyInput)
    } else if starts_with(t, "http://"@) || starts_with(t, "https://"@) {
        match folder_id_in_segments(split_on(t, '/'), 0) {
            Some(id) => Ok(id),
            None => Err(DriveUrlError::NoFolderId(arbitrary())),
        }
    } else {
        Ok(t)
    }
}

proof fn lemma_folder_id_in_piece(segs: Seq<Seq<char>>, i: int)
    ensures
        folder_id_in_segments(segs, i) matches Some(id) ==> id.len() > 0 && exists|j: int|
            0 <= j < segs.len() && #[trigger] before_first(segs[j], '?') == id,
    decreases segs.len() - i,
{
    if !(i < 0 || i + 1 >= segs.len()) {
        if !(segs[i] == "folders"@ && before_first(segs[i + 1], '?').len() > 0) {
            lemma_folder_id_in_piece(segs, i + 1);
        }
    }
}

/// A folder id read from a link, given back to `parse_drive_folder_url`
/// as a bare id, reads as itself: parsing is stable, so an id that was
/// stored once parses to the same folder every time. (An id cut from a
/// link segment that ends in white space is the one exception: it would
/// be trimmed.)
pub proof fn lemma_folder_id_reparses(input: Seq<char>, id: Seq<char>)
    requires
        drive_folder_id(input) == Ok::<Seq<char>, DriveUrlError>(id),
        trim(id) == id,
    ensures
        drive_folder_id(id) == Ok::<Seq<char>, DriveUrlError>(id),
{
    let t = trim(input);
    if starts_with(t, "http://"@) || starts_with(t, "https://"@) {
        let segs = split_on(t, '/');
        lemma_folder_id_in_piece(segs, 0);
        lemma_split_on_pieces(t, '/');
        let j = choose|j: int| 0 <= j < segs.len() && #[trigger] before_first(segs[j], '?') == id;
        assert(!segs[j].contains('/'));
        assert forall|k: int| 0 <= k < id.len() implies id[k] != '/' by {
            assert(id[k] == segs[j][k]);
        }
        reveal_strlit("http://");
        reveal_strlit("https://");
        if starts_with(id, "http://"@) {
            assert(id[5] == id.take(7)[5]);
        }
        if starts_with(id, "https://"@) {
            assert(id[6] == id.take(8)[6]);
        }
    }
}

/// Reads the folder id from a Google Drive folder URL such as
/// `https://drive.google.com/drive/folders/ID?usp=sharing`, or takes the
/// input as a bare folder id; see `drive_folder_id`.
pub fn parse_drive_folder_url(input: &str) -> (r: Result<String, DriveUrlError>)
    ensures
        match r {
            Ok(id) => drive_folder_id(input@) == Ok::<Seq<char>, DriveUrlError>(id@),
            Err(DriveUrlError::EmptyInput) => drive_folder_id(input@) == Err::<Seq<char>, DriveUrlError>(DriveUrlError::EmptyInput),
            Err(DriveUrlError::NoFolderId(url)) => drive_folder_id(input@) is Err && drive_folder_id(input@)
                != Err::<Seq<char>, DriveUrlError>(DriveUrlError::EmptyInput) && url@ == trim(input@),
        },
{
    let chars = chars_of(input);
    let t = trim_chars(&chars);
    if t.len() == 0 {
        return Err(DriveUrlError::EmptyInput);
    }
    if has_prefix(&t, &chars_of("http://")) || has_prefix(&t, &chars_of("https://")) {
        let segs = split_chars(&t, '/');
        let ghost sv = views(segs@);
        let n = segs.len();
        let folders = chars_of("folders");
        let mut i: usize = 0;
        while i < n
            invariant
                n == segs@.len(),
                sv == views(segs@),
                sv == split_on(t@, '/'),
                t@ == trim(input@),
                t@.len() > 0,
                starts_with(t@, "http://"@) || starts_with(t@, "https://"@),
                folders@ == "folders"@,
                i <= n,
                folder_id_in_segments(sv, 0) == folder_id_in_segments(sv, i as int),
            decreases n - i,
        {
            assert(sv[i as int] == segs@[i as int]@);
            if crate::marvelcdb::vec_eq(&segs[i], &folders) && n - i > 1 {
                let next = &segs[i + 1];
                assert(sv[i + 1] == next@);
                let id = match find_char(next, '?') {
                    Some(q) => slice(next, 0, q),
                    None => next.clone(),
                };
                assert(id@ == before_first(next@, '?'));
                if id.len() > 0 {
                    return Ok(string_from_chars(&id));
                }
            }
            i = i + 1;
        }
        return Err(DriveUrlError::NoFolderId(string_from_chars(&t)));
    }
    Ok(string_from_chars(&t))
}

/// `s` with its first character upper-cased; nothing for an empty `s`.
pub open spec fn capitalized(s: Seq<char>) -> Option<Seq<char>> {
    if s.len() == 0 {
        None
    } else {
        Some(spec_char_to_uppercase(s[0]) + s.skip(1))
    }
}

/// `s` with its first character upper-cased, or `None` when `s` is empty.
pub fn capitalize(s: &str) -> (r: Option<String>)
    ensures
        match r {
            Some(c) => capitalized(s@) == Some(c@),
            None => capitalized(s@).is_none(),
        },
{
    let chars = chars_of(s);
    if chars.len() == 0 {
        return None;
    }
    let first = char_to_uppercase(chars[0]);
    let mut out = chars_of(first.as_str());
    let rest = slice(&chars, 1, chars.len());
    extend_chars(&mut out, &rest);
    assert(rest@ == chars@.skip(1));
    Some(string_from_chars(&out))
}

/// `i` is the first aspect entry of `m` whose folder is `folder_id`.
pub open spec fn is_first_aspect_with_id(m: FolderMap, folder_id: Seq<char>, i: int) -> bool {
    &&& 0 <= i < m.aspect_folders@.len()
    &&& m.aspect_folders@[i].1@ == folder_id
    &&& forall|k: int| 0 <= k < i ==> m.aspect_folders@[k].1@ != folder_id
}

/// `i` is the first hero folder of `m` with id `folder_id`.
pub open spec fn is_first_hero_with_id(m: FolderMap, folder_id: Seq<char>, i: int) -> bool {
    &&& 0 <= i < m.hero_folders@.len()
    &&& m.hero_folders@[i].folder_id@ == folder_id
    &&& forall|k: int| 0 <= k < i ==> m.hero_folders@[k].folder_id@ != folder_id
}

/// The aspect entry of `m` for the folder `folder_id`.
pub open spec fn aspect_entry_for(m: FolderMap, folder_id: Seq<char>) -> Option<(String, String)> {
    if exists|i: int| is_first_aspect_with_id(m, folder_id, i) {
        Some(m.aspect_folders@[choose|i: int| is_first_aspect_with_id(m, folder_id, i)])
    } else {
        None
    }
}

/// The hero folder of `m` with id `folder_id`.
pub open spec fn hero_entry_for(m: FolderMap, folder_id: Seq<char>) -> Option<HeroFolder> {
    if exists|i: int| is_first_hero_with_id(m, folder_id, i) {
        Some(m.hero_folders@[choose|i: int| is_first_hero_with_id(m, folder_id, i)])
    } else {
        None
    }
}

/// The name file names in the folder `folder_id` start with: a capitalized
/// aspect name for an aspect folder, the hero's name for a hero folder.
pub open spec fn context_prefix(folder_id: Seq<char>, m: FolderMap) -> Option<Seq<char>> {
    match aspect_entry_for(m, folder_id) {
        Some(e) => capitalized(e.0@),
        None => match hero_entry_for(m, folder_id) {
            Some(h) => Some(h.hero_name@),
            None => None,
        },
    }
}

fn find_aspect_with_id(m: &FolderMap, folder_id: &str) -> (r: Option<usize>)
    ensures
        match r {
            Some(i) => is_first_aspect_with_id(*m, folder_id@, i as int) && aspect_entry_for(*m, folder_id@)
                == Some(m.aspect_folders@[i as int]),
            None => aspect_entry_for(*m, folder_id@).is_none(),
        },
{
    let fid = string_from_chars(&chars_of(folder_id));
    let n = m.aspect_folders.len();
    for i in 0..n
        invariant
            n == m.aspect_folders@.len(),
            fid@ == folder_id@,
            forall|k: int| 0 <= k < i ==> m.aspect_folders@[k].1@ != folder_id@,
    {
        if m.aspect_folders[i].1 == fid {
            assert(is_first_aspect_with_id(*m, folder_id@, i as int));
            return Some(i);
        }
    }
    None
}

fn find_hero_with_id(m: &FolderMap, folder_id: &str) -> (r: Option<usize>)
    ensures
        match r {
            Some(i) => is_first_hero_with_id(*m, folder_id@, i as int) && hero_entry_for(*m, folder_id@)
                == Some(m.hero_folders@[i as int]),
            None => hero_entry_for(*m, folder_id@).is_none(),
        },
{
    let fid = string_from_chars(&chars_of(folder_id));
    let n = m.hero_folders.len();
    for i in 0..n
        invariant
            n == m.hero_folders@.len(),
            fid@ == folder_id@,
            forall|k: int| 0 <= k < i ==> m.hero_folders@[k].folder_id@ != folder_id@,
    {
        if m.hero_folders[i].folder_id == fid {
            assert(is_first_hero_with_id(*m, folder_id@, i as int));
            return Some(i);
        }
    }
    None
}

/// The prefix that file names in the folder `folder_id` carry; see `context_prefix`.
pub fn determine_context_prefix(folder_id: &str, folder_map: &FolderMap) -> (r: Option<String>)
    ensures
        match r {
            Some(p) => context_prefix(folder_id@, *folder_map) == Some(p@),
            None => context_prefix(folder_id@, *folder_map).is_none(),
        },
{
    match find_aspect_with_id(folder_map, folder_id) {
        Some(i) => capitalize(folder_map.aspect_folders[i].0.as_str()),
        None => match find_hero_with_id(folder_map, folder_id) {
            Some(i) => Some(folder_map.hero_folders[i].hero_name.clone()),
            None => None,
        },
    }
}

/// The aspect names that Drive file names may start with.
pub open spec fn aspect_prefixes() -> Seq<Seq<char>> {
    seq!["Aggression"@, "Justice"@, "Leadership"@, "Protection"@, "Basic"@]
}

/// The number of bytes `c` takes in UTF-8.
pub open spec fn utf8_width(c: char) -> nat {
    if (c as u32) < 0x80 {
        1
    } else if (c as u32) < 0x800 {
        2
    } else if (c as u32) < 0x10000 {
        3
    } else {
        4
    }
}

/// The number of bytes `s` takes in UTF-8, which `str::len` counts.
pub open spec fn utf8_len(s: Seq<char>) -> nat
    decreases s.len(),
{
    if s.len() == 0 {
        0
    } else {
        utf8_len(s.drop_last()) + utf8_width(s.last())
    }
}

/// The number of bytes `s` takes in UTF-8.
pub fn utf8_length(s: &String) -> (n: u128)
    ensures
        n == utf8_len(s@),
{
    let chars = chars_of(s.as_str());
    let mut total: u128 = 0;
    let len = chars.len();
    for i in 0..len
        invariant
            len == chars@.len(),
            chars@ == s@,
            total == utf8_len(chars@.take(i as int)),
            total <= 4 * i,
    {
        assert(chars@.take(i + 1).drop_last() == chars@.take(i as int));
        let c = chars[i] as u32;
        let w: u128 = if c < 0x80 { 1 } else if c < 0x800 { 2 } else if c < 0x10000 { 3 } else { 4 };
        total = total + w;
    }
    assert(chars@.take(len as int) == chars@);
    total
}

/// The normalized card name of a file whose stem starts with one of
/// `prefixes[i..]` and which that aspect name shortens below `base`, if any.
pub open spec fn aspect_fallback(filename: Seq<char>, base: Seq<char>, prefixes: Seq<Seq<char>>, i: int) -> Seq<char>
    decreases prefixes.len() - i,
{
    if i < 0 || i >= prefixes.len() {
        base
    } else {
        let candidate = normalized(card_name_from_stem(stem_or_empty(filename), Some(prefixes[i])));
        if starts_with(stem_or_empty(filename), prefixes[i]) && utf8_len(candidate) < utf8_len(base) {
            candidate
        } else {
            aspect_fallback(filename, base, prefixes, i + 1)
        }
    }
}

/// The normalized card name of a Drive file: parsed with the folder's
/// prefix, unless the stem starts with an aspect name whose removal leaves
/// a shorter name.
pub open spec fn drive_card_name(filename: Seq<char>, context: Option<Seq<char>>) -> Seq<char> {
    let base = normalized(card_name_from_stem(stem_or_empty(filename), context));
    aspect_fallback(filename, base, aspect_prefixes(), 0)
}

/// One of the aspect names file names may start with.
pub open spec fn is_aspect_name(a: Seq<char>) -> bool {
    a == "Aggression"@ || a == "Justice"@ || a == "Leadership"@ || a == "Protection"@ || a == "Basic"@
}

proof fn lemma_aspect_fallback_choice(filename: Seq<char>, base: Seq<char>, prefixes: Seq<Seq<char>>, i: int)
    requires
        0 <= i,
    ensures
        ({
            let r = aspect_fallback(filename, base, prefixes, i);
            r == base || exists|j: int|
                i <= j < prefixes.len() && #[trigger] starts_with(stem_or_empty(filename), prefixes[j])
                    && r == normalized(card_name_from_stem(stem_or_empty(filename), Some(prefixes[j])))
                    && utf8_len(r) < utf8_len(base)
        }),
    decreases prefixes.len() - i,
{
    if i < prefixes.len() {
        lemma_aspect_fallback_choice(filename, base, prefixes, i + 1);
    }
}

/// The card name of a Drive file is never longer than its name parsed with
/// the folder's prefix (`base`), and differs from it only by being shorter;
/// it is either that name or the name parsed
/// with an aspect name the file stem starts with. When the stem starts with
/// an aspect name whose removal gives a shorter name than `base`, that
/// shorter name is the card name.
pub proof fn lemma_drive_name_prefers_shorter(filename: Seq<char>, context: Option<Seq<char>>)
    ensures
        ({
            let stem = stem_or_empty(filename);
            let base = normalized(card_name_from_stem(stem, context));
            let r = drive_card_name(filename, context);
            &&& utf8_len(r) <= utf8_len(base)
            &&& (r != base ==> utf8_len(r) < utf8_len(base))
            &&& (r == base || exists|a: Seq<char>|
                #[trigger] is_aspect_name(a) && starts_with(stem, a) && r == normalized(
                    card_name_from_stem(stem, Some(a)),
                ))
            &&& forall|a: Seq<char>|
                #[trigger] is_aspect_name(a) && starts_with(stem, a) && utf8_len(
                    normalized(card_name_from_stem(stem, Some(a))),
                ) < utf8_len(base) ==> r == normalized(card_name_from_stem(stem, Some(a)))
        }),
{
    let stem = stem_or_empty(filename);
    let base = normalized(card_name_from_stem(stem, context));
    let ps = aspect_prefixes();
    reveal_strlit("Aggression");
    reveal_strlit("Justice");
    reveal_strlit("Leadership");
    reveal_strlit("Protection");
    reveal_strlit("Basic");
    lemma_aspect_fallback_choice(filename, base, ps, 0);
    let r = drive_card_name(filename, context);
    if r != base {
        let j = choose|j: int|
            0 <= j < ps.len() && #[trigger] starts_with(stem, ps[j]) && r == normalized(
                card_name_from_stem(stem, Some(ps[j])),
            ) && utf8_len(r) < utf8_len(base);
        assert(is_aspect_name(ps[j]));
    }
    assert forall|a: Seq<char>|
        #[trigger] is_aspect_name(a) && starts_with(stem, a) && utf8_len(
            normalized(card_name_from_stem(stem, Some(a))),
        ) < utf8_len(base) implies r == normalized(card_name_from_stem(stem, Some(a))) by {
        // the aspect names begin with five different letters, so the stem
        // starts with at most one of them
        assert(stem[0] == a[0]);
        let k: int = if a == ps[0] { 0 } else if a == ps[1] { 1 } else if a == ps[2] { 2 } else if a == ps[3] { 3 } else { 4 };
        assert(a == ps[k]);
        assert forall|j: int| 0 <= j < k implies !starts_with(stem, #[trigger] ps[j]) by {
            assert(ps[j][0] != a[0]);
        }
        lemma_fallback_skips(filename, base, ps, k, k);
    }
}

proof fn lemma_fallback_skips(filename: Seq<char>, base: Seq<char>, ps: Seq<Seq<char>>, k: int, j: int)
    requires
        0 <= j <= k < ps.len(),
        forall|i: int| 0 <= i < k ==> !starts_with(stem_or_empty(filename), #[trigger] ps[i]),
    ensures
        aspect_fallback(filename, base, ps, 0) == aspect_fallback(filename, base, ps, j),
    decreases j,
{
    if j > 0 {
        lemma_fallback_skips(filename, base, ps, k, j - 1);
    }
}

/// The normalized card name a Drive file name spells; see `drive_card_name`.
pub fn parse_drive_filename(filename: &str, context_prefix: Option<&str>) -> (r: String)
    ensures
        r@ == drive_card_name(
            filename@,
            match context_prefix {
                Some(p) => Some(p@),
                None => None,
            },
        ),
{
    let parsed = parse_card_name_from_filename(filename, context_prefix);
    let normalized_name = normalize_name(parsed.as_str());
    let stem = match file_stem(filename) {
        Some(s) => chars_of(s.as_str()),
        None => Vec::new(),
    };
    let prefixes = [
        string_from_chars(&chars_of("Aggression")),
        string_from_chars(&chars_of("Justice")),
        string_from_chars(&chars_of("Leadership")),
        string_from_chars(&chars_of("Protection")),
        string_from_chars(&chars_of("Basic")),
    ];
    assert(prefixes@.map_values(|s: String| s@) =~= aspect_prefixes());
    let base_len = utf8_length(&normalized_name);
    let mut i: usize = 0;
    while i < 5
        invariant
            prefixes@.map_values(|s: String| s@) == aspect_prefixes(),
            stem@ == stem_or_empty(filename@),
            base_len == utf8_len(normalized_name@),
            normalized_name@ == normalized(
                card_name_from_stem(
                    stem_or_empty(filename@),
                    match context_prefix {
                        Some(p) => Some(p@),
                        None => None,
                    },
                ),
            ),
            i <= 5,
            aspect_fallback(filename@, normalized_name@, aspect_prefixes(), 0) == aspect_fallback(
                filename@,
                normalized_name@,
                aspect_prefixes(),
                i as int,
            ),
        decreases 5 - i,
    {
        let prefix = &prefixes[i];
        assert(aspect_prefixes()[i as int] == prefix@);
        if has_prefix(&stem, &chars_of(prefix.as_str())) {
            let with_aspect = parse_card_name_from_filename(filename, Some(prefix.as_str()));
            let norm_aspect = normalize_name(with_aspect.as_str());
            if utf8_length(&norm_aspect) < base_len {
                return norm_aspect;
            }
        }
        i = i + 1;
    }
    normalized_name
}

/// The path that `Path::join` (std) makes of `base` and `part`, as a string.
pub uninterp spec fn spec_path_join(base: Seq<char>, part: Seq<char>) -> Seq<char>;

/// `Path::join` (std) of `base` and `part`, converted to a string. Its
/// result is named: it rests on std's rules for separators and for a `part`
/// that is itself absolute.
#[verifier::external_body]
pub(crate) fn join_path(base: &str, part: &str) -> (r: String)
    ensures
        r@ == spec_path_join(base@, part@),
{
    std::path::Path::new(base).join(part).to_string_lossy().into_owned()
}

/// The path components, below the images directory, where a Drive file is
/// stored: under its hero folder or aspect folder when `folder_id` is one,
/// otherwise under the folder for the card's faction.
pub open spec fn local_path_parts(
    filename: Seq<char>,
    faction: Seq<char>,
    hero_name: Seq<char>,
    folder_id: Seq<char>,
    m: FolderMap,
) -> Seq<Seq<char>> {
    match hero_entry_for(m, folder_id) {
        Some(h) => seq!["heros"@, h.folder_name@, filename],
        None => match aspect_entry_for(m, folder_id) {
            Some(e) => match capitalized(e.0@) {
                Some(c) => seq!["Aspects"@, c, filename],
                None => seq![filename],
            },
            None => {
                let mapped = aspect_for_faction(faction);
                if mapped == "hero"@ {
                    seq!["heros"@, hero_name, filename]
                } else if mapped == "basic"@ {
                    seq!["Aspects"@, "Basic"@, filename]
                } else {
                    match capitalized(mapped) {
                        Some(c) => seq!["Aspects"@, c, filename],
                        None => seq![filename],
                    }
                }
            },
        },
    }
}

/// A file found outside every hero and aspect folder of the map is filed by
/// its own faction: for a faction that is an aspect (not `hero`, and not
/// `basic`, `neutral` or `pool`, which share the Basic folder) it goes to
/// `Aspects/<Faction>/`, the faction name with its first letter upper-cased.
pub proof fn lemma_unfiled_card_goes_to_its_aspect(
    filename: Seq<char>,
    faction: Seq<char>,
    hero_name: Seq<char>,
    folder_id: Seq<char>,
    m: FolderMap,
)
    requires
        forall|i: int| 0 <= i < m.hero_folders@.len() ==> #[trigger] m.hero_folders@[i].folder_id@ != folder_id,
        forall|i: int| 0 <= i < m.aspect_folders@.len() ==> #[trigger] m.aspect_folders@[i].1@ != folder_id,
        faction.len() > 0,
        faction != "hero"@,
        faction != "basic"@,
        faction != "neutral"@,
        faction != "pool"@,
    ensures
        local_path_parts(filename, faction, hero_name, folder_id, m) == seq![
            "Aspects"@,
            spec_char_to_uppercase(faction[0]) + faction.skip(1),
            filename,
        ],
{
}

/// A file found outside every hero and aspect folder of the map whose
/// faction is not an aspect is filed under the hero it came with (faction
/// `hero`) or in the shared `Aspects/Basic` folder (`basic`, `neutral`,
/// `pool`).
pub proof fn lemma_unfiled_card_of_hero_or_basic(
    filename: Seq<char>,
    faction: Seq<char>,
    hero_name: Seq<char>,
    folder_id: Seq<char>,
    m: FolderMap,
)
    requires
        forall|i: int| 0 <= i < m.hero_folders@.len() ==> #[trigger] m.hero_folders@[i].folder_id@ != folder_id,
        forall|i: int| 0 <= i < m.aspect_folders@.len() ==> #[trigger] m.aspect_folders@[i].1@ != folder_id,
    ensures
        faction == "hero"@ ==> local_path_parts(filename, faction, hero_name, folder_id, m) == seq![
            "heros"@,
            hero_name,
            filename,
        ],
        faction == "basic"@ || faction == "neutral"@ || faction == "pool"@ ==> local_path_parts(
            filename,
            faction,
            hero_name,
            folder_id,
            m,
        ) == seq!["Aspects"@, "Basic"@, filename],
{
    reveal_strlit("hero");
    reveal_strlit("basic");
    reveal_strlit("neutral");
    reveal_strlit("pool");
    assert("hero"@.len() == 4 && "neutral"@.len() == 7);
    assert("hero"@[0] != "pool"@[0]);
}

/// A file found in a folder of the map is filed by that folder: under
/// `heros/<folder name>` for the first hero folder with its id, otherwise
/// under `Aspects/<Aspect>` for the first aspect folder with its id, the
/// aspect's first letter upper-cased; the card's faction plays no part.
pub proof fn lemma_mapped_card_follows_its_folder(
    filename: Seq<char>,
    faction: Seq<char>,
    hero_name: Seq<char>,
    folder_id: Seq<char>,
    m: FolderMap,
    i: int,
)
    ensures
        0 <= i < m.hero_folders@.len() && m.hero_folders@[i].folder_id@ == folder_id && (forall|k: int|
            0 <= k < i ==> #[trigger] m.hero_folders@[k].folder_id@ != folder_id) ==> local_path_parts(
            filename,
            faction,
            hero_name,
            folder_id,
            m,
        ) == seq!["heros"@, m.hero_folders@[i].folder_name@, filename],
        (forall|k: int| 0 <= k < m.hero_folders@.len() ==> #[trigger] m.hero_folders@[k].folder_id@ != folder_id)
            && 0 <= i < m.aspect_folders@.len() && m.aspect_folders@[i].1@ == folder_id && m.aspect_folders@[i].0@.len()
            > 0 && (forall|k: int| 0 <= k < i ==> #[trigger] m.aspect_folders@[k].1@ != folder_id)
            ==> local_path_parts(filename, faction, hero_name, folder_id, m) == seq![
            "Aspects"@,
            spec_char_to_uppercase(m.aspect_folders@[i].0@[0]) + m.aspect_folders@[i].0@.skip(1),
            filename,
        ],
{
    if 0 <= i < m.hero_folders@.len() && m.hero_folders@[i].folder_id@ == folder_id && (forall|k: int|
        0 <= k < i ==> #[trigger] m.hero_folders@[k].folder_id@ != folder_id) {
        assert(is_first_hero_with_id(m, folder_id, i));
        let c = choose|j: int| is_first_hero_with_id(m, folder_id, j);
        assert(c == i) by {
            if c < i {
                assert(m.hero_folders@[c].folder_id@ != folder_id);
            } else if c > i {
                assert(m.hero_folders@[i].folder_id@ != folder_id);
            }
        }
    }
    if (forall|k: int| 0 <= k < m.hero_folders@.len() ==> #[trigger] m.hero_folders@[k].folder_id@ != folder_id)
        && 0 <= i < m.aspect_folders@.len() && m.aspect_folders@[i].1@ == folder_id && (forall|k: int|
        0 <= k < i ==> #[trigger] m.aspect_folders@[k].1@ != folder_id) {
        assert(is_first_aspect_with_id(m, folder_id, i));
        let c = choose|j: int| is_first_aspect_with_id(m, folder_id, j);
        assert(c == i) by {
            if c < i {
                assert(m.aspect_folders@[c].1@ != folder_id);
            } else if c > i {
                assert(m.aspect_folders@[i].1@ != folder_id);
            }
        }
    }
}

/// `base` joined with each of `parts` in turn.
pub open spec fn join_all(base: Seq<char>, parts: Seq<Seq<char>>) -> Seq<char>
    decreases parts.len(),
{
    if parts.len() == 0 {
        base
    } else {
        spec_path_join(join_all(base, parts.drop_last()), parts.last())
    }
}

/// The components of the local path for a Drive file; see `local_path_parts`.
pub fn local_path_components(
    filename: &str,
    faction: &str,
    hero_name: &str,
    folder_id: &str,
    folder_map: &FolderMap,
) -> (r: Vec<String>)
    ensures
        str_views(r@) == local_path_parts(filename@, faction@, hero_name@, folder_id@, *folder_map),
{
    let file = string_from_chars(&chars_of(filename));
    let mut parts: Vec<String> = Vec::new();
    match find_hero_with_id(folder_map, folder_id) {
        Some(i) => {
            parts.push(string_from_chars(&chars_of("heros")));
            parts.push(folder_map.hero_folders[i].folder_name.clone());
            parts.push(file);
        },
        None => match find_aspect_with_id(folder_map, folder_id) {
            Some(i) => match capitalize(folder_map.aspect_folders[i].0.as_str()) {
                Some(c) => {
                    parts.push(string_from_chars(&chars_of("Aspects")));
                    parts.push(c);
                    parts.push(file);
                },
                None => {
                    parts.push(file);
                },
            },
            None => {
                let mapped = map_faction_to_aspect(faction);
                let mc = chars_of(mapped.as_str());
                if crate::marvelcdb::vec_eq(&mc, &chars_of("hero")) {
                    parts.push(string_from_chars(&chars_of("heros")));
                    parts.push(string_from_chars(&chars_of(hero_name)));
                    parts.push(file);
                } else if crate::marvelcdb::vec_eq(&mc, &chars_of("basic")) {
                    parts.push(string_from_chars(&chars_of("Aspects")));
                    parts.push(string_from_chars(&chars_of("Basic")));
                    parts.push(file);
                } else {
                    match capitalize(mapped.as_str()) {
                        Some(c) => {
                            parts.push(string_from_chars(&chars_of("Aspects")));
                            parts.push(c);
                            parts.push(file);
                        },
                        None => {
                            parts.push(file);
                        },
                    }
                }
            },
        },
    }
    assert(str_views(parts@) =~= local_path_parts(filename@, faction@, hero_name@, folder_id@, *folder_map));
    parts
}

/// Where a file downloaded from the Drive folder `folder_id` is saved:
/// `images_dir` joined with `local_path_parts`.
pub fn determine_local_path(
    filename: &str,
    faction: &str,
    hero_name: &str,
    images_dir: &str,
    folder_id: &str,
    folder_map: &FolderMap,
) -> (r: String)
    ensures
        r@ == join_all(
            images_dir@,
            local_path_parts(filename@, faction@, hero_name@, folder_id@, *folder_map),
        ),
{
    let parts = local_path_components(filename, faction, hero_name, folder_id, folder_map);
    let ghost pv = str_views(parts@);
    let mut path = string_from_chars(&chars_of(images_dir));
    let n = parts.len();
    for i in 0..n
        invariant
            n == parts@.len(),
            pv == str_views(parts@),
            path@ == join_all(images_dir@, pv.take(i as int)),
    {
        assert(pv.take(i + 1).drop_last() == pv.take(i as int));
        assert(pv.take(i + 1).last() == parts@[i as int]@);
        path = join_path(path.as_str(), parts[i].as_str());
    }
    assert(pv.take(n as int) == pv);
    path
}

} // verus!
