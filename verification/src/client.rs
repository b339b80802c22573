//! The decisions of the browser front end: searching the library, the
//! print sheet and export layouts, and deck list imports.

use vstd::prelude::*;
use crate::assoc::{AssocList, DeepCopy, KeyEq};
use crate::library::{
    AltFacesView, AlternateFaceMetadata, CardFacePrintingId, CardId, CardView, FaceKey,
    FilledCardSlot, InsertId, InsertKey, InsertView, Library, LibraryView, MultiLibrary, MultiLibraryView,
    SlotView,
};
use crate::print_file::{PrintFile, added_auto_faces, added_slots, can_add};
use crate::text::{
    lines_spec, parse_u32, parse_u32_spec, parse_usize, parse_usize_spec, split_once_char, split_once_spec,
    str_views, text_lines, trim_spec, trim_str,
};

verus! {

// ----------------------------------------------------------------------------
// Search
// ----------------------------------------------------------------------------

/// What a search result stands for.
#[derive(Debug, PartialEq, Eq, Hash)]
pub enum HaystackEntry {
    Card(CardId),
    Insert(InsertId),
    InsertGroup(String),
}

pub ghost enum EntryView {
    Card(Seq<char>),
    Insert(InsertKey),
    InsertGroup(Seq<char>),
}

impl View for HaystackEntry {
    type V = EntryView;

    open spec fn view(&self) -> EntryView {
        match self {
            HaystackEntry::Card(c) => EntryView::Card(c@),
            HaystackEntry::Insert(i) => EntryView::Insert(i@),
            HaystackEntry::InsertGroup(g) => EntryView::InsertGroup(g@),
        }
    }
}

impl KeyEq for HaystackEntry {
    fn key_eq(&self, other: &Self) -> (r: bool) {
        match (self, other) {
            (HaystackEntry::Card(a), HaystackEntry::Card(b)) => a.key_eq(b),
            (HaystackEntry::Insert(a), HaystackEntry::Insert(b)) => a.key_eq(b),
            (HaystackEntry::InsertGroup(a), HaystackEntry::InsertGroup(b)) => a.key_eq(b),
            _ => false,
        }
    }
}

impl DeepCopy for HaystackEntry {
    fn deep_copy(&self) -> (r: Self) {
        match self {
            HaystackEntry::Card(c) => HaystackEntry::Card(c.deep_copy()),
            HaystackEntry::Insert(i) => HaystackEntry::Insert(i.deep_copy()),
            HaystackEntry::InsertGroup(g) => HaystackEntry::InsertGroup(g.deep_copy()),
        }
    }
}

impl Clone for HaystackEntry {
    fn clone(&self) -> (r: Self)
        ensures
            r@ == self@,
    {
        self.deep_copy()
    }
}

/// The entry is in the library and `text` is one of its search texts: a
/// card's or an insert's title or ASCII title, or an insert group's name.
pub open spec fn entry_has_text(library: LibraryView, entry: EntryView, text: Seq<char>) -> bool {
    match entry {
        EntryView::Card(c) => library.cards.contains_key(c) && (library.cards[c].title.title == text
            || library.cards[c].title.stripped == text),
        EntryView::Insert(k) => library.inserts.contains_key(k) && (library.inserts[k].title.title == text
            || library.inserts[k].title.stripped == text),
        EntryView::InsertGroup(g) => g == text && exists|k: InsertKey| #[trigger]
            library.inserts.contains_key(k) && library.inserts[k].insert_groups.contains(g),
    }
}

pub open spec fn string_views(s: Seq<String>) -> Seq<Seq<char>> {
    s.map_values(|t: String| t@)
}

/// The texts a search runs over, and the entry each text stands for.
pub struct Haystack {
    texts: Vec<String>,
    mappings: AssocList<String, HaystackEntry>,
}

pub ghost struct HaystackView {
    pub texts: Seq<Seq<char>>,
    pub mappings: Map<Seq<char>, EntryView>,
}

impl View for Haystack {
    type V = HaystackView;

    closed spec fn view(&self) -> HaystackView {
        HaystackView { texts: string_views(self.texts@), mappings: self.mappings@ }
    }
}

impl Haystack {
    /// Every text stands for an entry.
    #[verifier::type_invariant]
    closed spec fn inv(self) -> bool {
        forall|i: int| 0 <= i < self.texts.len() ==> self.mappings@.contains_key(#[trigger] self.texts@[i]@)
    }

    /// The texts, in the order they were gathered.
    pub fn texts(&self) -> (r: &Vec<String>)
        ensures
            string_views(r@) == self@.texts,
    {
        &self.texts
    }

    /// The entry a text stands for.
    pub fn entry(&self, text: &String) -> (r: Option<&HaystackEntry>)
        ensures
            match r {
                Some(e) => self@.mappings.contains_key(text@) && e@ == self@.mappings[text@],
                None => !self@.mappings.contains_key(text@),
            },
    {
        self.mappings.get(text)
    }
}

fn add_text(texts: &mut Vec<String>, mappings: &mut AssocList<String, HaystackEntry>, text: &String, entry: HaystackEntry)
    ensures
        string_views(final(texts)@) == string_views(old(texts)@).push(text@),
        final(mappings)@ == old(mappings)@.insert(text@, entry@),
{
    texts.push(text.clone());
    mappings.insert(text.clone(), entry);
    assert(string_views(texts@) =~= string_views(old(texts)@).push(text@));
}

/// Gathers the search texts of a print group's library: each card's title and
/// ASCII title, each insert's title and ASCII title and the names of its
/// insert groups.  Each text stands for an entry that holds it; which one,
/// where several entries share a text, is left open here.
pub fn search_haystack(library: &Library) -> (r: Haystack)
    ensures
        forall|t: Seq<char>| #[trigger] r@.mappings.contains_key(t) ==> entry_has_text(library@, r@.mappings[t], t),
        forall|t: Seq<char>| #[trigger] r@.mappings.contains_key(t) <==> r@.texts.contains(t),
        forall|c: Seq<char>| #[trigger] library@.cards.contains_key(c) ==> r@.texts.contains(
            library@.cards[c].title.title,
        ) && r@.texts.contains(library@.cards[c].title.stripped),
        forall|k: InsertKey| #[trigger] library@.inserts.contains_key(k) ==> r@.texts.contains(
            library@.inserts[k].title.title,
        ) && r@.texts.contains(library@.inserts[k].title.stripped),
        forall|k: InsertKey, g: Seq<char>| #[trigger] library@.inserts.contains_key(k) && #[trigger] library@.inserts[k].insert_groups.contains(g)
            ==> r@.texts.contains(g),
{
    let ghost lv = library@;
    let mut texts: Vec<String> = Vec::new();
    let mut mappings: AssocList<String, HaystackEntry> = AssocList::new();
    proof {
        use_type_invariant(&library.cards);
        use_type_invariant(&library.inserts);
        library.cards.lemma_keys();
        library.inserts.lemma_keys();
    }
    let n = library.cards.len();
    let mut i: usize = 0;
    while i < n
        invariant
            lv == library@,
            n == library.cards.key_seq().len(),
            i <= n,
            forall|t: Seq<char>| #[trigger] mappings@.contains_key(t) ==> entry_has_text(lv, mappings@[t], t),
            forall|t: Seq<char>| #[trigger] mappings@.contains_key(t) <==> string_views(texts@).contains(t),
            forall|j: int| 0 <= j < i ==> string_views(texts@).contains(lv.cards[#[trigger] library.cards.key_seq()[j]].title.title)
                && string_views(texts@).contains(lv.cards[library.cards.key_seq()[j]].title.stripped),
        decreases n - i,
    {
        let id = library.cards.key_at(i);
        let meta = library.cards.value_at(i);
        let ghost before = string_views(texts@);
        add_text(&mut texts, &mut mappings, &meta.title.title, HaystackEntry::Card(id.deep_copy()));
        add_text(&mut texts, &mut mappings, &meta.title.stripped_title, HaystackEntry::Card(id.deep_copy()));
        proof {
            let now = string_views(texts@);
            assert(now == before.push(meta.title.title@).push(meta.title.stripped_title@));
            assert(now[before.len() as int] == meta.title.title@);
            assert(now[before.len() as int + 1] == meta.title.stripped_title@);
            assert forall|s: Seq<char>| before.contains(s) implies now.contains(s) by {
                let k = choose|k: int| 0 <= k < before.len() && before[k] == s;
                assert(now[k] == s);
            }
            assert forall|t: Seq<char>| #[trigger] mappings@.contains_key(t) <==> now.contains(t) by {
                if now.contains(t) && !before.contains(t) {
                    let k = choose|k: int| 0 <= k < now.len() && now[k] == t;
                    if k < before.len() {
                        assert(before[k] == t);
                    }
                }
            }
        }
        i += 1;
    }
    let m = library.inserts.len();
    let mut i: usize = 0;
    while i < m
        invariant
            lv == library@,
            n == library.cards.key_seq().len(),
            m == library.inserts.key_seq().len(),
            i <= m,
            forall|t: Seq<char>| #[trigger] mappings@.contains_key(t) ==> entry_has_text(lv, mappings@[t], t),
            forall|t: Seq<char>| #[trigger] mappings@.contains_key(t) <==> string_views(texts@).contains(t),
            forall|j: int| 0 <= j < n ==> string_views(texts@).contains(lv.cards[#[trigger] library.cards.key_seq()[j]].title.title)
                && string_views(texts@).contains(lv.cards[library.cards.key_seq()[j]].title.stripped),
            forall|j: int| 0 <= j < i ==> string_views(texts@).contains(lv.inserts[#[trigger] library.inserts.key_seq()[j]].title.title)
                && string_views(texts@).contains(lv.inserts[library.inserts.key_seq()[j]].title.stripped),
            forall|j: int, g: Seq<char>| 0 <= j < i && #[trigger] lv.inserts[#[trigger] library.inserts.key_seq()[j]].insert_groups.contains(g)
                ==> string_views(texts@).contains(g),
        decreases m - i,
    {
        let id = library.inserts.key_at(i);
        let meta = library.inserts.value_at(i);
        let ghost before = string_views(texts@);
        add_text(&mut texts, &mut mappings, &meta.title.title, HaystackEntry::Insert(id.deep_copy()));
        add_text(&mut texts, &mut mappings, &meta.title.stripped_title, HaystackEntry::Insert(id.deep_copy()));
        proof {
            let now = string_views(texts@);
            assert(now[before.len() as int] == meta.title.title@);
            assert(now[before.len() as int + 1] == meta.title.stripped_title@);
            assert forall|s: Seq<char>| before.contains(s) implies now.contains(s) by {
                let k = choose|k: int| 0 <= k < before.len() && before[k] == s;
                assert(now[k] == s);
            }
            assert forall|t: Seq<char>| #[trigger] mappings@.contains_key(t) <==> now.contains(t) by {
                if now.contains(t) && !before.contains(t) {
                    let k = choose|k: int| 0 <= k < now.len() && now[k] == t;
                    if k < before.len() {
                        assert(before[k] == t);
                    }
                }
            }
        }
        let groups = meta.insert_groups.len();
        let mut j: usize = 0;
        let ghost mid = string_views(texts@);
        while j < groups
            invariant
                lv == library@,
                i < m,
                m == library.inserts.key_seq().len(),
                meta@ == lv.inserts[library.inserts.key_seq()[i as int]],
                lv.inserts.contains_key(library.inserts.key_seq()[i as int]),
                groups == meta.insert_groups.listing().len(),
                j <= groups,
                forall|t: Seq<char>| #[trigger] mappings@.contains_key(t) ==> entry_has_text(lv, mappings@[t], t),
                forall|t: Seq<char>| #[trigger] mappings@.contains_key(t) <==> string_views(texts@).contains(t),
                forall|s: Seq<char>| mid.contains(s) ==> #[trigger] string_views(texts@).contains(s),
                forall|q: int| 0 <= q < j ==> string_views(texts@).contains(#[trigger] meta.insert_groups.listing()[q]),
            decreases groups - j,
        {
            let g = meta.insert_groups.at(j);
            let ghost before_g = string_views(texts@);
            add_text(&mut texts, &mut mappings, g, HaystackEntry::InsertGroup(g.clone()));
            proof {
                let now = string_views(texts@);
                assert(now[before_g.len() as int] == g@);
                assert forall|s: Seq<char>| before_g.contains(s) implies now.contains(s) by {
                    let k = choose|k: int| 0 <= k < before_g.len() && before_g[k] == s;
                    assert(now[k] == s);
                }
                assert forall|t: Seq<char>| #[trigger] mappings@.contains_key(t) <==> now.contains(t) by {
                    if now.contains(t) && !before_g.contains(t) {
                        let k = choose|k: int| 0 <= k < now.len() && now[k] == t;
                        if k < before_g.len() {
                            assert(before_g[k] == t);
                        }
                    }
                }
                let key = library.inserts.key_seq()[i as int];
                assert(lv.inserts.contains_key(key));
                assert(entry_has_text(lv, EntryView::InsertGroup(g@), g@));
            }
            j += 1;
        }
        proof {
            let key = library.inserts.key_seq()[i as int];
            assert forall|g: Seq<char>| #[trigger] lv.inserts[key].insert_groups.contains(g) implies string_views(texts@).contains(g) by {
                assert(meta.insert_groups@.contains(g));
                let q = choose|q: int| 0 <= q < meta.insert_groups.listing().len() && meta.insert_groups.listing()[q] == g;
                assert(string_views(texts@).contains(meta.insert_groups.listing()[q]));
            }
        }
        i += 1;
    }
    proof {
        assert forall|k: int| 0 <= k < texts.len() implies mappings@.contains_key(#[trigger] texts@[k]@) by {
            assert(string_views(texts@)[k] == texts@[k]@);
        }
    }
    let r = Haystack { texts, mappings };
    r
}

/// How the fuzzy matcher ranks the texts for a query: the matching texts,
/// best first.
pub uninterp spec fn ranked_matches(query: Seq<char>, haystack: Seq<Seq<char>>) -> Seq<Seq<char>>;

/// `nucleo_matcher::pattern::Pattern::match_list` with the search settings of
/// the front end (case ignored, smart normalisation, prefix preferred): the
/// texts that match the query, best first.  The ranking depends on the query
/// and the texts alone; it is not stated, except that only texts of the
/// haystack come back.
#[verifier::external_body]
fn rank_matches(query: &str, haystack: &Vec<String>) -> (r: Vec<String>)
    ensures
        string_views(r@) == ranked_matches(query@, string_views(haystack@)),
        forall|i: int| 0 <= i < r@.len() ==> string_views(haystack@).contains(#[trigger] r@[i]@),
{
    let mut config = nucleo_matcher::Config::DEFAULT;
    config.ignore_case = true;
    config.normalize = true;
    config.prefer_prefix = true;
    let mut matcher = nucleo_matcher::Matcher::new(config);
    let pattern = nucleo_matcher::pattern::Pattern::parse(
        query,
        nucleo_matcher::pattern::CaseMatching::Ignore,
        nucleo_matcher::pattern::Normalization::Smart,
    );
    pattern.match_list(haystack, &mut matcher).into_iter().map(|(text, _)| text.clone()).collect()
}

/// The entries the texts stand for.
pub open spec fn entries_of(texts: Seq<Seq<char>>, mappings: Map<Seq<char>, EntryView>) -> Seq<EntryView> {
    texts.map_values(|t: Seq<char>| mappings[t])
}

/// The first `limit` distinct entries, in order.
pub open spec fn distinct_prefix(entries: Seq<EntryView>, limit: nat) -> Seq<EntryView>
    decreases entries.len(),
{
    if entries.len() == 0 {
        Seq::empty()
    } else {
        let p = distinct_prefix(entries.drop_last(), limit);
        if p.len() >= limit || p.contains(entries.last()) {
            p
        } else {
            p.push(entries.last())
        }
    }
}

pub open spec fn entry_views(entries: Seq<HaystackEntry>) -> Seq<EntryView> {
    entries.map_values(|e: HaystackEntry| e@)
}

proof fn lemma_distinct_prefix_full(entries: Seq<EntryView>, limit: nat, i: int)
    requires
        0 <= i <= entries.len(),
        distinct_prefix(entries.subrange(0, i), limit).len() >= limit,
    ensures
        distinct_prefix(entries, limit) == distinct_prefix(entries.subrange(0, i), limit),
    decreases entries.len() - i,
{
    if i == entries.len() {
        assert(entries.subrange(0, i) =~= entries);
    } else {
        let next = entries.subrange(0, i + 1);
        assert(next.drop_last() =~= entries.subrange(0, i));
        lemma_distinct_prefix_full(entries, limit, i + 1);
    }
}

/// The entries of the ranked texts, without repeats, until `limit` of them
/// are found.
pub fn first_entries(ranked: &Vec<String>, mappings: &AssocList<String, HaystackEntry>, limit: usize) -> (r: Vec<
    HaystackEntry,
>)
    requires
        forall|i: int| 0 <= i < ranked@.len() ==> mappings@.contains_key(#[trigger] ranked@[i]@),
    ensures
        entry_views(r@) == distinct_prefix(entries_of(string_views(ranked@), mappings@), limit as nat),
{
    let ghost all = entries_of(string_views(ranked@), mappings@);
    let mut found: Vec<HaystackEntry> = Vec::new();
    let mut i: usize = 0;
    while i < ranked.len()
        invariant
            i <= ranked.len(),
            all == entries_of(string_views(ranked@), mappings@),
            all.len() == ranked@.len(),
            forall|k: int| 0 <= k < ranked@.len() ==> mappings@.contains_key(#[trigger] ranked@[k]@),
            entry_views(found@) == distinct_prefix(all.subrange(0, i as int), limit as nat),
            found.len() < limit || limit == 0,
        decreases ranked.len() - i,
    {
        let ghost prefix = all.subrange(0, i as int);
        let ghost next = all.subrange(0, i + 1);
        assert(next.drop_last() =~= prefix);
        assert(next.last() == mappings@[ranked@[i as int]@]);
        let entry = mappings.get(&ranked[i]).unwrap();
        let mut seen = false;
        let mut j: usize = 0;
        while j < found.len()
            invariant
                j <= found.len(),
                seen == exists|q: int| 0 <= q < j && (#[trigger] found@[q])@ == entry@,
            decreases found.len() - j,
        {
            if found[j].key_eq(entry) {
                seen = true;
            }
            j += 1;
        }
        proof {
            let fv = entry_views(found@);
            if seen {
                let q = choose|q: int| 0 <= q < found.len() && (#[trigger] found@[q])@ == entry@;
                assert(fv[q] == entry@);
            } else {
                assert forall|q: int| 0 <= q < fv.len() implies fv[q] != entry@ by {
                    assert(fv[q] == found@[q]@);
                }
            }
        }
        if limit > 0 && !seen {
            let ghost before = found@;
            found.push(entry.deep_copy());
            assert(entry_views(found@) =~= entry_views(before).push(entry@));
            if found.len() == limit {
                proof {
                    lemma_distinct_prefix_full(all, limit as nat, i + 1);
                    assert(all.subrange(0, all.len() as int) =~= all);
                }
                return found;
            }
        }
        i += 1;
    }
    assert(all.subrange(0, all.len() as int) =~= all);
    found
}

impl Haystack {
    /// The first five distinct entries whose texts match the query, best match
    /// first.
    pub fn search(&self, query: &str) -> (r: Vec<HaystackEntry>)
        ensures
            entry_views(r@) == distinct_prefix(entries_of(ranked_matches(query@, self@.texts), self@.mappings), 5),
    {
        proof {
            use_type_invariant(self);
        }
        let ranked = rank_matches(query, &self.texts);
        proof {
            assert forall|i: int| 0 <= i < ranked@.len() implies self.mappings@.contains_key(#[trigger] ranked@[i]@) by {
                let k = choose|k: int| 0 <= k < self.texts@.len() && string_views(self.texts@)[k] == ranked@[i]@;
                assert(self.texts@[k]@ == ranked@[i]@);
            }
        }
        first_entries(&ranked, &self.mappings, 5)
    }
}

/// The inserts (in the given order of identities) that belong to group `g`,
/// as print slots.
pub open spec fn group_slots(keys: Seq<InsertKey>, inserts: Map<InsertKey, InsertView>, g: Seq<char>) -> Seq<SlotView>
    decreases keys.len(),
{
    if keys.len() == 0 {
        Seq::empty()
    } else {
        let rest = group_slots(keys.drop_last(), inserts, g);
        if inserts[keys.last()].insert_groups.contains(g) {
            rest.push(SlotView::Insert { insert: inserts[keys.last()].id })
        } else {
            rest
        }
    }
}

/// Adds what a chosen search result stands for: a card's slots (as
/// `PrintFile::add_cards`), an insert, or every insert of a group.
pub fn choose_entry(file: &mut PrintFile, library: &Library, entry: &HaystackEntry)
    requires
        entry@ matches EntryView::Card(c) ==> library@.cards.contains_key(c) && can_add(old(file)@, library@.cards[c]),
    ensures
        match entry@ {
            EntryView::Card(c) => {
                &&& final(file)@.slots == old(file)@.slots + added_slots(old(file)@, library@.cards[c])
                &&& final(file)@.auto_faces == added_auto_faces(old(file)@, library@.cards[c])
            },
            EntryView::Insert(k) => {
                &&& final(file)@.slots == old(file)@.slots.push(SlotView::Insert { insert: k })
                &&& final(file)@.auto_faces == old(file)@.auto_faces
            },
            EntryView::InsertGroup(g) => {
                &&& final(file)@.slots == old(file)@.slots + group_slots(library.inserts.key_seq(), library@.inserts, g)
                &&& final(file)@.auto_faces == old(file)@.auto_faces
            },
        },
{
    match entry {
        HaystackEntry::Card(c) => {
            let card = library.get_card(c);
            file.add_cards(card);
        },
        HaystackEntry::Insert(k) => {
            file.add_insert(k.deep_copy());
        },
        HaystackEntry::InsertGroup(g) => {
            proof {
                use_type_invariant(&library.inserts);
                library.inserts.lemma_keys();
            }
            let n = library.inserts.len();
            let mut i: usize = 0;
            while i < n
                invariant
                    i <= n,
                    n == library.inserts.key_seq().len(),
                    entry@ == EntryView::InsertGroup(g@),
                    file@.auto_faces == old(file)@.auto_faces,
                    file@.slots == old(file)@.slots + group_slots(
                        library.inserts.key_seq().subrange(0, i as int),
                        library@.inserts,
                        g@,
                    ),
                decreases n - i,
            {
                let meta = library.inserts.value_at(i);
                let ghost keys = library.inserts.key_seq();
                assert(keys.subrange(0, i + 1).drop_last() =~= keys.subrange(0, i as int));
                assert(keys.subrange(0, i + 1).last() == keys[i as int]);
                if meta.insert_groups.contains(g) {
                    file.add_insert(meta.id.deep_copy());
                }
                i += 1;
            }
            assert(library.inserts.key_seq().subrange(0, n as int) =~= library.inserts.key_seq());
        },
    }
}

// ----------------------------------------------------------------------------
// Sheets and exports
// ----------------------------------------------------------------------------

/// The pages a list of `used` slots fills (nine cards a page) and how many
/// cards are on the last page.
pub fn sheet_counts(used: usize) -> (r: (usize, usize))
    ensures
        r.0 == used / 9 + if used % 9 == 0 { 0int } else { 1int },
        r.1 == if used % 9 == 0 && used > 0 { 9 } else { used % 9 },
{
    let pages = used / 9 + if used % 9 == 0 { 0 } else { 1 };
    let mut last = used % 9;
    if last == 0 && used > 0 {
        last = 9;
    }
    (pages, last)
}

/// The page and the slot on that page of the `i`-th card.
pub fn page_slot(i: usize) -> (r: (usize, usize))
    ensures
        r.0 == i / 9,
        r.1 == i % 9,
        r.1 < 9,
{
    (i / 9, i % 9)
}

/// The deck image for Tabletop Simulator: cards of 405 by 567 pixels, ten to
/// a row, at most 69 of them, and the rest of the last row filled with the
/// card back.
#[derive(Debug)]
pub struct TtsLayout {
    pub width: u32,
    pub height: u32,
    /// Where each card goes (left, top), in order.
    pub cards: Vec<(i64, i64)>,
    /// Where the card back goes.
    pub backs: Vec<(i64, i64)>,
}

/// The cell after the last card: the column and row after `count` cards
/// (the first cell is skipped when there are none).
pub open spec fn back_start(count: nat) -> (nat, nat) {
    let (column, row) = if count == 0 {
        (0nat, 0nat)
    } else {
        (((count - 1) % 10) as nat, ((count - 1) / 10) as nat)
    };
    if column + 1 == 10 {
        (0, row + 1)
    } else {
        (column + 1, row)
    }
}

/// The deck image layout for `slots` print slots.
pub fn tts_layout(slots: usize) -> (r: TtsLayout)
    requires
        ((slots + 10) / 10) * 567 <= u32::MAX,
    ensures
        r.width == 4050,
        r.height == ((slots + 10) / 10) * 567,
        r.cards@.len() == if slots < 69 { slots as int } else { 69 },
        forall|i: int| 0 <= i < r.cards@.len() ==> (#[trigger] r.cards@[i]).0 == (i % 10) * 405 && r.cards@[i].1 == (i / 10) * 567,
        r.backs@.len() == 10 - back_start(r.cards@.len() as nat).0,
        forall|k: int| 0 <= k < r.backs@.len() ==> (#[trigger] r.backs@[k]).0 == (back_start(r.cards@.len() as nat).0 + k) * 405
            && r.backs@[k].1 == back_start(r.cards@.len() as nat).1 * 567,
{
    let rows: u32 = ((slots as u64 + 10) / 10) as u32;
    let height = rows * 567;
    let count: usize = if slots < 69 { slots } else { 69 };
    let mut cards: Vec<(i64, i64)> = Vec::new();
    let mut column: usize = 0;
    let mut row: usize = 0;
    let mut i: usize = 0;
    while i < count
        invariant
            i <= count,
            count <= 69,
            cards@.len() == i,
            forall|q: int| 0 <= q < i ==> (#[trigger] cards@[q]).0 == (q % 10) * 405 && cards@[q].1 == (q / 10) * 567,
            i == 0 ==> column == 0 && row == 0,
            i > 0 ==> column == (i - 1) % 10 && row == (i - 1) / 10,
        decreases count - i,
    {
        column = i % 10;
        row = i / 10;
        cards.push(((column as i64) * 405, (row as i64) * 567));
        i += 1;
    }
    column += 1;
    if column == 10 {
        column = 0;
        row += 1;
    }
    let mut backs: Vec<(i64, i64)> = Vec::new();
    let mut c: usize = column;
    while c < 10
        invariant
            column <= c <= 10,
            row <= 7,
            backs@.len() == c - column,
            forall|k: int| 0 <= k < backs@.len() ==> (#[trigger] backs@[k]).0 == (column + k) * 405 && backs@[k].1 == row * 567,
        decreases 10 - c,
    {
        backs.push(((c as i64) * 405, (row as i64) * 567));
        c += 1;
    }
    TtsLayout { width: 4050, height, cards, backs }
}

// ----------------------------------------------------------------------------
// Faces of a saved slot
// ----------------------------------------------------------------------------

/// How many faces (or variants) a card offers to choose from; none for a
/// single-faced card.
pub open spec fn face_total(card: CardView) -> Option<int> {
    match card.faces {
        AltFacesView::Single => None,
        AltFacesView::Multiple(titles) => Some(titles.len() as int + 1),
        AltFacesView::Variants(n) => Some(n as int),
    }
}

/// The card a saved slot's printing belongs to, if the library has it.
pub open spec fn slot_card(library: MultiLibraryView, slot: SlotView) -> Option<CardView> {
    match slot {
        SlotView::Card { printing, .. } => {
            if library.libraries.contains_key(printing.group) && library.libraries[printing.group].faces.contains_key(
                printing,
            ) && library.libraries[printing.group].cards.contains_key(
                library.libraries[printing.group].faces[printing].card_id,
            ) {
                Some(library.libraries[printing.group].cards[library.libraries[printing.group].faces[printing].card_id])
            } else {
                None
            }
        },
        SlotView::Insert { .. } => None,
    }
}

/// The face a saved slot shows and how many faces its card has to choose
/// from: only for a printing with a face number whose card has several faces
/// or variants.
pub open spec fn face_choices_spec(library: MultiLibraryView, slot: SlotView) -> Option<(usize, int)> {
    match slot {
        SlotView::Card { printing, .. } => match printing.face {
            Some(face) => match slot_card(library, slot) {
                Some(card) => match face_total(card) {
                    Some(n) => Some((face, n)),
                    None => None,
                },
                None => None,
            },
            None => None,
        },
        SlotView::Insert { .. } => None,
    }
}

/// The face a saved slot shows and how many faces its card offers.
pub fn face_choices(library: &MultiLibrary, slot: &FilledCardSlot) -> (r: Option<(usize, usize)>)
    requires
        slot_card(library@, slot@) matches Some(card) ==> (card.faces matches AltFacesView::Multiple(t) ==> t.len() < usize::MAX),
    ensures
        match r {
            Some((face, n)) => face_choices_spec(library@, slot@) == Some((face, n as int)),
            None => face_choices_spec(library@, slot@) is None,
        },
{
    match slot {
        FilledCardSlot::Card { printing, .. } => {
            let face = match printing.face_or_variant_specifier {
                Some(f) => f,
                None => {
                    return None;
                },
            };
            let group = match library.libraries.get(&printing.print_group) {
                Some(g) => g,
                None => {
                    return None;
                },
            };
            let card = match group.try_get_face_card(printing) {
                Some(c) => c,
                None => {
                    return None;
                },
            };
            match &card.alternate_face_data {
                AlternateFaceMetadata::Single => None,
                AlternateFaceMetadata::Multiple(titles) => Some((face, titles.len() + 1)),
                AlternateFaceMetadata::Variants(n) => Some((face, *n)),
            }
        },
        FilledCardSlot::Insert { .. } => None,
    }
}

/// The printing a slot shows switched to face `face`.
pub fn with_face(printing: &CardFacePrintingId, face: usize) -> (r: CardFacePrintingId)
    ensures
        r@ == (FaceKey { face: Some(face), ..printing@ }),
{
    CardFacePrintingId { id: printing.id, face_or_variant_specifier: Some(face), print_group: printing.print_group.clone() }
}

// ----------------------------------------------------------------------------
// Deck list imports
// ----------------------------------------------------------------------------

/// The first key (in the given order) that satisfies `ok`.
pub open spec fn first_key(keys: Seq<Seq<char>>, ok: spec_fn(Seq<char>) -> bool) -> Option<Seq<char>>
    decreases keys.len(),
{
    if keys.len() == 0 {
        None
    } else if ok(keys[0]) {
        Some(keys[0])
    } else {
        first_key(keys.drop_first(), ok)
    }
}

proof fn lemma_first_key(keys: Seq<Seq<char>>, ok: spec_fn(Seq<char>) -> bool, i: int)
    requires
        0 <= i <= keys.len(),
        forall|j: int| 0 <= j < i ==> !ok(#[trigger] keys[j]),
        i == keys.len() || ok(keys[i]),
    ensures
        first_key(keys, ok) == if i == keys.len() { None::<Seq<char>> } else { Some(keys[i]) },
    decreases keys.len(),
{
    if keys.len() > 0 && !ok(keys[0]) {
        let t = keys.drop_first();
        assert forall|j: int| 0 <= j < i - 1 implies !ok(#[trigger] t[j]) by {
            assert(t[j] == keys[j + 1]);
        }
        if i < keys.len() {
            assert(t[i - 1] == keys[i]);
        }
        lemma_first_key(t, ok, i - 1);
    }
}

/// The card is called `name` (its title or its ASCII title).
pub open spec fn titled(card: CardView, name: Seq<char>) -> bool {
    card.title.title == name || card.title.stripped == name
}

/// The first card (in the library's order) called `name`.
pub fn find_card_by_title<'a>(library: &'a Library, name: &str) -> (r: Option<&'a CardId>)
    ensures
        match r {
            Some(c) => first_key(library.cards.key_seq(), |k: Seq<char>| titled(library@.cards[k], name@)) == Some(c@),
            None => first_key(library.cards.key_seq(), |k: Seq<char>| titled(library@.cards[k], name@)) is None,
        },
{
    let ghost ok = |k: Seq<char>| titled(library@.cards[k], name@);
    let n = library.cards.len();
    let mut i: usize = 0;
    while i < n
        invariant
            n == library.cards.key_seq().len(),
            i <= n,
            ok == (|k: Seq<char>| titled(library@.cards[k], name@)),
            forall|j: int| 0 <= j < i ==> !ok(#[trigger] library.cards.key_seq()[j]),
        decreases n - i,
    {
        let id = library.cards.key_at(i);
        let meta = library.cards.value_at(i);
        if crate::text::str_eq(meta.title.title.as_str(), name) || crate::text::str_eq(
            meta.title.stripped_title.as_str(),
            name,
        ) {
            proof {
                lemma_first_key(library.cards.key_seq(), ok, i as int);
            }
            return Some(id);
        }
        i += 1;
    }
    proof {
        lemma_first_key(library.cards.key_seq(), ok, n as int);
    }
    None
}

/// The card has a printing with this number.
pub open spec fn has_printing_number(card: CardView, id: u32) -> bool {
    exists|k: FaceKey| #[trigger] card.printings.contains(k) && k.id == id
}

/// The first card (in the library's order) with a printing of this number.
pub fn find_card_with_printing(library: &Library, id: u32) -> (r: Option<&CardId>)
    ensures
        match r {
            Some(c) => first_key(library.cards.key_seq(), |k: Seq<char>| has_printing_number(library@.cards[k], id))
                == Some(c@),
            None => first_key(library.cards.key_seq(), |k: Seq<char>| has_printing_number(library@.cards[k], id)) is None,
        },
{
    let ghost ok = |k: Seq<char>| has_printing_number(library@.cards[k], id);
    let n = library.cards.len();
    let mut i: usize = 0;
    while i < n
        invariant
            n == library.cards.key_seq().len(),
            i <= n,
            ok == (|k: Seq<char>| has_printing_number(library@.cards[k], id)),
            forall|j: int| 0 <= j < i ==> !ok(#[trigger] library.cards.key_seq()[j]),
        decreases n - i,
    {
        let key = library.cards.key_at(i);
        let meta = library.cards.value_at(i);
        let m = meta.printings.len();
        let mut q: usize = 0;
        let mut found = false;
        while q < m
            invariant
                m == meta.printings.listing().len(),
                q <= m,
                found == exists|x: int| 0 <= x < q && (#[trigger] meta.printings.listing()[x]).id == id,
            decreases m - q,
        {
            if meta.printings.at(q).id == id {
                found = true;
            }
            q += 1;
        }
        proof {
            if found {
                let x = choose|x: int| 0 <= x < m && (#[trigger] meta.printings.listing()[x]).id == id;
                let k = meta.printings.listing()[x];
                assert(meta.printings@.contains(k));
                assert(meta@.printings.contains(k));
                assert(k.id == id);
                assert(has_printing_number(meta@, id));
                assert(meta@ == library@.cards[library.cards.key_seq()[i as int]]);
                assert(ok(library.cards.key_seq()[i as int]));
            } else {
                assert forall|k: FaceKey| #[trigger] meta.printings@.contains(k) implies k.id != id by {
                    let x = choose|x: int| 0 <= x < m && meta.printings.listing()[x] == k;
                    assert((meta.printings.listing()[x]).id != id);
                }
            }
        }
        if found {
            proof {
                lemma_first_key(library.cards.key_seq(), ok, i as int);
            }
            return Some(key);
        }
        i += 1;
    }
    proof {
        lemma_first_key(library.cards.key_seq(), ok, n as int);
    }
    None
}

/// What one line of a JNET deck list asks for.
#[derive(Debug, PartialEq, Eq)]
pub enum JnetLine {
    /// Add this many copies of the card.
    Add { card: CardId, count: usize },
    /// The line has no space.
    InvalidLine(String),
    /// The text before the first space is not a number.
    InvalidNumber(String),
    /// No card has this name.
    NotFound(String),
}

pub ghost enum JnetLineView {
    Add { card: Seq<char>, count: usize },
    InvalidLine(Seq<char>),
    InvalidNumber(Seq<char>),
    NotFound(Seq<char>),
}

impl View for JnetLine {
    type V = JnetLineView;

    open spec fn view(&self) -> JnetLineView {
        match self {
            JnetLine::Add { card, count } => JnetLineView::Add { card: card@, count: *count },
            JnetLine::InvalidLine(l) => JnetLineView::InvalidLine(l@),
            JnetLine::InvalidNumber(c) => JnetLineView::InvalidNumber(c@),
            JnetLine::NotFound(n) => JnetLineView::NotFound(n@),
        }
    }
}

/// What a JNET line `count name` asks for in the library.
pub open spec fn jnet_line_spec(library: Library, line: Seq<char>) -> JnetLineView {
    match split_once_spec(line, ' ') {
        None => JnetLineView::InvalidLine(line),
        Some((count, name)) => match parse_usize_spec(trim_spec(count)) {
            None => JnetLineView::InvalidNumber(count),
            Some(n) => match first_key(library.cards.key_seq(), |k: Seq<char>| titled(library@.cards[k], name)) {
                Some(c) => JnetLineView::Add { card: c, count: n },
                None => JnetLineView::NotFound(name),
            },
        },
    }
}

pub open spec fn jnet_views(lines: Seq<JnetLine>) -> Seq<JnetLineView> {
    lines.map_values(|l: JnetLine| l@)
}

/// What each line of a JNET deck list asks for, in order.
pub fn jnet_plan(library: &Library, text: &str) -> (r: Vec<JnetLine>)
    ensures
        jnet_views(r@) == lines_spec(text@).map_values(|line: Seq<char>| jnet_line_spec(*library, line)),
{
    let lines = text_lines(text);
    let ghost want = lines_spec(text@).map_values(|line: Seq<char>| jnet_line_spec(*library, line));
    let mut out: Vec<JnetLine> = Vec::new();
    let mut i: usize = 0;
    while i < lines.len()
        invariant
            i <= lines.len(),
            str_views(lines@) == lines_spec(text@),
            want == lines_spec(text@).map_values(|line: Seq<char>| jnet_line_spec(*library, line)),
            jnet_views(out@) == want.subrange(0, i as int),
        decreases lines.len() - i,
    {
        let line = lines[i];
        assert(str_views(lines@)[i as int] == line@);
        let item = match split_once_char(line, ' ') {
            None => JnetLine::InvalidLine(String::from_str(line)),
            Some((count, name)) => match parse_usize(trim_str(count)) {
                None => JnetLine::InvalidNumber(String::from_str(count)),
                Some(n) => match find_card_by_title(library, name) {
                    Some(card) => JnetLine::Add { card: card.deep_copy(), count: n },
                    None => JnetLine::NotFound(String::from_str(name)),
                },
            },
        };
        assert(item@ == want[i as int]);
        let ghost before = out@;
        out.push(item);
        assert(jnet_views(out@) =~= jnet_views(before).push(item@));
        assert(want.subrange(0, i + 1) =~= want.subrange(0, i as int).push(want[i as int]));
        i += 1;
    }
    assert(want.subrange(0, lines.len() as int) =~= want);
    out
}

/// The NetrunnerDB card number of a deck list key, through the library's
/// remappings.
pub open spec fn nrdb_number_spec(library: MultiLibraryView, key: Seq<char>) -> Option<u32> {
    match parse_u32_spec(key) {
        None => None,
        Some(n) => Some(
            if library.nrdb_remap.contains_key(n) {
                library.nrdb_remap[n]
            } else {
                n
            },
        ),
    }
}

/// The card number a NetrunnerDB deck list key stands for, or `None` when
/// the key is not a number.
pub fn nrdb_number(library: &MultiLibrary, key: &str) -> (r: Option<u32>)
    ensures
        r == nrdb_number_spec(library@, key@),
{
    match parse_u32(key) {
        None => None,
        Some(n) => match library.nrdb_remap.get(&n) {
            Some(to) => Some(*to),
            None => Some(n),
        },
    }
}

/// The first capture group of a regular expression's first match.
pub uninterp spec fn regex_first_capture(pattern: Seq<char>, text: Seq<char>) -> Option<Seq<char>>;

/// A character of a NetrunnerDB deck identity: `[0-9a-f-]`.
pub open spec fn is_deck_id_char(c: char) -> bool {
    ('0' <= c && c <= '9') || ('a' <= c && c <= 'f') || c == '-'
}

/// How many deck identity characters follow one another from position `i`.
pub open spec fn deck_id_run(t: Seq<char>, i: int) -> nat
    decreases t.len() - i,
{
    if 0 <= i < t.len() && is_deck_id_char(t[i]) {
        1 + deck_id_run(t, i + 1)
    } else {
        0
    }
}

/// Whether `prefix` and then at least one identity character start at `i`,
/// followed, where `slash_after` holds, by a `/` right after the longest run.
pub open spec fn deck_link_at(t: Seq<char>, i: int, prefix: Seq<char>, slash_after: bool) -> bool {
    let start = i + prefix.len();
    let end = start + deck_id_run(t, start);
    &&& 0 <= i
    &&& start <= t.len()
    &&& t.subrange(i, start) == prefix
    &&& deck_id_run(t, start) > 0
    &&& slash_after ==> (end < t.len() && t[end] == '/')
}

/// The first position from `i` on where such a link starts.
pub open spec fn first_deck_link_from(t: Seq<char>, i: int, prefix: Seq<char>, slash_after: bool) -> Option<int>
    decreases t.len() + 1 - i,
{
    if i < 0 || i > t.len() {
        None
    } else if deck_link_at(t, i, prefix, slash_after) {
        Some(i)
    } else {
        first_deck_link_from(t, i + 1, prefix, slash_after)
    }
}

/// The identity of the leftmost such link: the longest run of identity
/// characters after the prefix.
pub open spec fn leftmost_deck_id(t: Seq<char>, prefix: Seq<char>, slash_after: bool) -> Option<Seq<char>> {
    match first_deck_link_from(t, 0, prefix, slash_after) {
        Some(i) => Some(t.subrange(i + prefix.len(), i + prefix.len() + deck_id_run(t, i + prefix.len()))),
        None => None,
    }
}

/// What `NRDB_PUBLIC_DECK` captures: the identity after the leftmost
/// `deck/view/` that some identity character follows.
pub open spec fn public_deck_id(t: Seq<char>) -> Option<Seq<char>> {
    leftmost_deck_id(t, "deck/view/"@, false)
}

/// What `NRDB_PUBLISHED_DECKLIST` captures: the identity after the leftmost
/// `decklist/` that a run of identity characters and then `/` follow.
pub open spec fn published_decklist_id(t: Seq<char>) -> Option<Seq<char>> {
    leftmost_deck_id(t, "decklist/"@, true)
}

/// `regex::Regex::new(pattern)` and then `captures(text)` and its group 1:
/// the text of the first capture group of the leftmost match, `None` when
/// the pattern does not compile, nothing matches or the group took part in
/// no match.  The result depends on pattern and text alone.  For the two deck
/// link patterns of this module the regex crate's documented leftmost-first
/// semantics, with a greedy `+`, give the capture stated by
/// `public_deck_id` and `published_decklist_id`; for other patterns what it
/// is, is not stated.
#[verifier::external_body]
fn first_capture(pattern: &str, text: &str) -> (r: Option<String>)
    ensures
        match r {
            Some(c) => regex_first_capture(pattern@, text@) == Some(c@),
            None => regex_first_capture(pattern@, text@) is None,
        },
        pattern@ == NRDB_PUBLIC_DECK@ ==> opt_string_view(r) == public_deck_id(text@),
        pattern@ == NRDB_PUBLISHED_DECKLIST@ ==> opt_string_view(r) == published_decklist_id(text@),
{
    let re = match regex::Regex::new(pattern) {
        Ok(re) => re,
        Err(_) => return None,
    };
    match re.captures(text) {
        Some(captures) => match captures.get(1) {
            Some(group) => Some(group.as_str().to_owned()),
            None => None,
        },
        None => None,
    }
}

/// A shared NetrunnerDB deck link: `deck/view/<id>`.
pub const NRDB_PUBLIC_DECK: &'static str = "deck\\/view\\/([0-9a-f-]+)";

/// A published NetrunnerDB deck list link: `decklist/<id>/`.
pub const NRDB_PUBLISHED_DECKLIST: &'static str = "decklist\\/([0-9a-f-]+)\\/";

/// The NetrunnerDB API address for a shared deck or else a published deck
/// list identity.
pub open spec fn nrdb_api_url_spec(public_id: Option<Seq<char>>, published_id: Option<Seq<char>>) -> Option<Seq<char>> {
    match (public_id, published_id) {
        (Some(id), _) => Some("https://netrunnerdb.com/api/2.0/public/deck/"@ + id),
        (None, Some(id)) => Some("https://netrunnerdb.com/api/2.0/public/decklist/"@ + id),
        (None, None) => None,
    }
}

/// The NetrunnerDB API address for the deck identities found in a link.
pub fn nrdb_api_url(public_id: Option<&str>, published_id: Option<&str>) -> (r: Option<String>)
    ensures
        match r {
            Some(u) => nrdb_api_url_spec(opt_str_view(public_id), opt_str_view(published_id)) == Some(u@),
            None => nrdb_api_url_spec(opt_str_view(public_id), opt_str_view(published_id)) is None,
        },
{
    match (public_id, published_id) {
        (Some(id), _) => {
            let mut u = String::from_str("https://netrunnerdb.com/api/2.0/public/deck/");
            u.append(id);
            Some(u)
        },
        (None, Some(id)) => {
            let mut u = String::from_str("https://netrunnerdb.com/api/2.0/public/decklist/");
            u.append(id);
            Some(u)
        },
        (None, None) => None,
    }
}

pub open spec fn opt_string_view(o: Option<String>) -> Option<Seq<char>> {
    match o {
        Some(s) => Some(s@),
        None => None,
    }
}

pub open spec fn opt_str_view(o: Option<&str>) -> Option<Seq<char>> {
    match o {
        Some(s) => Some(s@),
        None => None,
    }
}

/// The NetrunnerDB API address for a deck link, if the link names a shared
/// deck or a published deck list.
pub fn nrdb_deck_api_url(link: &str) -> (r: Option<String>)
    ensures
        opt_string_view(r) == nrdb_api_url_spec(public_deck_id(link@), published_decklist_id(link@)),
{
    let public_id = first_capture(NRDB_PUBLIC_DECK, link);
    let published_id = first_capture(NRDB_PUBLISHED_DECKLIST, link);
    let a: Option<&str> = match &public_id {
        Some(s) => Some(s.as_str()),
        None => None,
    };
    let b: Option<&str> = match &published_id {
        Some(s) => Some(s.as_str()),
        None => None,
    };
    nrdb_api_url(a, b)
}

/// What one card of a NetrunnerDB deck list asks for.
#[derive(Debug, PartialEq, Eq)]
pub enum NrdbStep {
    /// Add this many copies of the card.
    Add { card: CardId, count: u64 },
    /// No card has a printing of this number.
    Missing(u32),
}

pub ghost enum NrdbStepView {
    Add { card: Seq<char>, count: u64 },
    Missing(u32),
}

impl View for NrdbStep {
    type V = NrdbStepView;

    open spec fn view(&self) -> NrdbStepView {
        match self {
            NrdbStep::Add { card, count } => NrdbStepView::Add { card: card@, count: *count },
            NrdbStep::Missing(n) => NrdbStepView::Missing(*n),
        }
    }
}

/// Why a NetrunnerDB deck list stopped being read.
#[derive(Debug, Clone, Copy, PartialEq, Eq, Structural)]
pub enum NrdbFailure {
    /// A card count is not a number.
    CountNotNumber,
    /// A card key is not a number.
    KeyNotNumber,
}

pub open spec fn nrdb_step_views(steps: Seq<NrdbStep>) -> Seq<NrdbStepView> {
    steps.map_values(|st: NrdbStep| st@)
}

/// The steps for a deck list's cards (key and count, in order) until one of
/// them cannot be read.
pub open spec fn nrdb_plan_spec(
    library: MultiLibraryView,
    group: Library,
    cards: Seq<(Seq<char>, Option<u64>)>,
) -> (Seq<NrdbStepView>, Option<NrdbFailure>)
    decreases cards.len(),
{
    if cards.len() == 0 {
        (Seq::empty(), None)
    } else {
        let (steps, failure) = nrdb_plan_spec(library, group, cards.drop_last());
        if failure is Some {
            (steps, failure)
        } else {
            let (key, count) = cards.last();
            match count {
                None => (steps, Some(NrdbFailure::CountNotNumber)),
                Some(c) => match nrdb_number_spec(library, key) {
                    None => (steps, Some(NrdbFailure::KeyNotNumber)),
                    Some(n) => match first_key(group.cards.key_seq(), |k: Seq<char>| has_printing_number(group@.cards[k], n)) {
                        Some(card) => (steps.push(NrdbStepView::Add { card, count: c }), None),
                        None => (steps.push(NrdbStepView::Missing(n)), None),
                    },
                },
            }
        }
    }
}

pub open spec fn deck_entry_views(cards: Seq<(String, Option<u64>)>) -> Seq<(Seq<char>, Option<u64>)> {
    cards.map_values(|e: (String, Option<u64>)| (e.0@, e.1))
}

proof fn lemma_nrdb_plan_failed(
    library: MultiLibraryView,
    group: Library,
    cards: Seq<(Seq<char>, Option<u64>)>,
    i: int,
)
    requires
        0 <= i <= cards.len(),
        nrdb_plan_spec(library, group, cards.subrange(0, i)).1 is Some,
    ensures
        nrdb_plan_spec(library, group, cards) == nrdb_plan_spec(library, group, cards.subrange(0, i)),
    decreases cards.len() - i,
{
    if i == cards.len() {
        assert(cards.subrange(0, i) =~= cards);
    } else {
        assert(cards.subrange(0, i + 1).drop_last() =~= cards.subrange(0, i));
        lemma_nrdb_plan_failed(library, group, cards, i + 1);
    }
}

/// What each card of a NetrunnerDB deck list (its key and, if it is a
/// number, its count, in order) asks for in print group `group`, stopping at
/// the first card that cannot be read.
pub fn nrdb_plan(library: &MultiLibrary, group: &Library, cards: &Vec<(String, Option<u64>)>) -> (r: (
    Vec<NrdbStep>,
    Option<NrdbFailure>,
))
    ensures
        (nrdb_step_views(r.0@), r.1) == nrdb_plan_spec(library@, *group, deck_entry_views(cards@)),
{
    let ghost all = deck_entry_views(cards@);
    let mut steps: Vec<NrdbStep> = Vec::new();
    let mut i: usize = 0;
    while i < cards.len()
        invariant
            i <= cards.len(),
            all == deck_entry_views(cards@),
            all.len() == cards.len(),
            (nrdb_step_views(steps@), None::<NrdbFailure>) == nrdb_plan_spec(library@, *group, all.subrange(0, i as int)),
        decreases cards.len() - i,
    {
        let ghost next = all.subrange(0, i + 1);
        assert(next.drop_last() =~= all.subrange(0, i as int));
        assert(next.last() == (cards[i as int].0@, cards[i as int].1));
        let (key, count) = (&cards[i].0, cards[i].1);
        let c = match count {
            Some(c) => c,
            None => {
                proof {
                    lemma_nrdb_plan_failed(library@, *group, all, i + 1);
                    assert(all.subrange(0, all.len() as int) =~= all);
                }
                return (steps, Some(NrdbFailure::CountNotNumber));
            },
        };
        let n = match nrdb_number(library, key.as_str()) {
            Some(n) => n,
            None => {
                proof {
                    lemma_nrdb_plan_failed(library@, *group, all, i + 1);
                }
                return (steps, Some(NrdbFailure::KeyNotNumber));
            },
        };
        let ghost before = steps@;
        match find_card_with_printing(group, n) {
            Some(card) => {
                steps.push(NrdbStep::Add { card: card.deep_copy(), count: c });
            },
            None => {
                steps.push(NrdbStep::Missing(n));
            },
        }
        assert(nrdb_step_views(steps@) =~= nrdb_step_views(before).push(steps@.last()@));
        i += 1;
    }
    assert(all.subrange(0, all.len() as int) =~= all);
    (steps, None)
}

} // verus!
