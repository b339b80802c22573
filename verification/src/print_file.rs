//! The list of cards and inserts to print.

use vstd::prelude::*;
use crate::assoc::{AssocList, DeepCopy, KeyEq};
use crate::library::{
    ActiveState, AltFacesView, AlternateFaceMetadata, CardFacePrintingId,
    CardId, CardMetadata, CardView, FaceKey, FilledCardSlot, InsertId, MultiLibraryView, SlotView,
    greatest_with, lemma_greatest_unique,
};

verus! {

/// How often one variant of one card was chosen automatically.
#[derive(Debug, PartialEq, Eq, Hash)]
pub struct AutoFaceKey {
    pub card_id: CardId,
    pub variant: usize,
}

impl View for AutoFaceKey {
    type V = (Seq<char>, usize);

    open spec fn view(&self) -> (Seq<char>, usize) {
        (self.card_id@, self.variant)
    }
}

impl KeyEq for AutoFaceKey {
    fn key_eq(&self, other: &Self) -> (r: bool) {
        self.card_id.key_eq(&other.card_id) && self.variant == other.variant
    }
}

impl DeepCopy for AutoFaceKey {
    fn deep_copy(&self) -> (r: Self) {
        AutoFaceKey { card_id: self.card_id.deep_copy(), variant: self.variant }
    }
}

/// The slots to print, in order, and how often each variant of each card was
/// picked automatically.
#[derive(Debug)]
pub struct PrintFile {
    slots: Vec<FilledCardSlot>,
    auto_faces: AssocList<AutoFaceKey, usize>,
}

pub ghost struct PrintFileView {
    pub slots: Seq<SlotView>,
    pub auto_faces: Map<(Seq<char>, usize), usize>,
}

impl View for PrintFile {
    type V = PrintFileView;

    closed spec fn view(&self) -> PrintFileView {
        PrintFileView {
            slots: self.slots@.map_values(|s: FilledCardSlot| s@),
            auto_faces: self.auto_faces@,
        }
    }
}

impl Default for PrintFile {
    fn default() -> (r: Self)
        ensures
            r@.slots == Seq::<SlotView>::empty(),
            r@.auto_faces == Map::<(Seq<char>, usize), usize>::empty(),
    {
        let r = PrintFile { slots: Vec::new(), auto_faces: AssocList::new() };
        assert(r@.slots =~= Seq::<SlotView>::empty());
        r
    }
}

impl Clone for PrintFile {
    fn clone(&self) -> (r: Self)
        ensures
            r@ == self@,
    {
        let slots = crate::assoc::copy_vec(&self.slots);
        let r = PrintFile { slots, auto_faces: self.auto_faces.deep_copy() };
        assert(r@.slots =~= self@.slots);
        r
    }
}

/// How often variant `v` of card `id` was picked.
pub open spec fn use_count(auto: Map<(Seq<char>, usize), usize>, id: Seq<char>, v: int) -> nat {
    if auto.contains_key((id, v as usize)) {
        auto[(id, v as usize)] as nat
    } else {
        0
    }
}

/// The scan over variants `1..=v`: the smallest count seen and the first
/// variant that has it (starting from `usize::MAX` and variant 1).
pub open spec fn variant_scan(auto: Map<(Seq<char>, usize), usize>, id: Seq<char>, v: nat) -> (nat, nat)
    decreases v,
{
    if v == 0 {
        (usize::MAX as nat, 1)
    } else {
        let (best_count, best) = variant_scan(auto, id, (v - 1) as nat);
        if use_count(auto, id, v as int) < best_count {
            (use_count(auto, id, v as int), v)
        } else {
            (best_count, best)
        }
    }
}

/// The variant that the next automatic pick of card `id` with `n` variants uses.
pub open spec fn chosen_variant(auto: Map<(Seq<char>, usize), usize>, id: Seq<char>, n: nat) -> nat {
    variant_scan(auto, id, n).1
}

/// The greatest printing of a card with the given face filter.
pub open spec fn greatest_printing(printings: Set<FaceKey>, face: Option<Option<usize>>) -> FaceKey {
    choose|x: FaceKey| greatest_with(printings, face, x)
}

/// The slot for a card's greatest printing under a face filter.
pub open spec fn card_slot(meta: CardView, face: Option<Option<usize>>) -> SlotView {
    SlotView::Card { printing: greatest_printing(meta.printings, face), card_id: Some(meta.id) }
}

/// Whether the card has a printing with this face.
pub open spec fn has_face(meta: CardView, face: usize) -> bool {
    exists|x: FaceKey| #[trigger] meta.printings.contains(x) && x.face == Some(face)
}

/// What `add_cards` needs of a card: a printing for every slot it adds, and a
/// use count that can still grow.
pub open spec fn can_add(file: PrintFileView, meta: CardView) -> bool {
    match meta.faces {
        AltFacesView::Single => meta.printings.len() > 0,
        AltFacesView::Multiple(titles) => {
            &&& titles.len() < usize::MAX
            &&& has_face(meta, 1)
            &&& forall|k: int| 0 <= k < titles.len() ==> #[trigger] has_face(meta, (k + 2) as usize)
        },
        AltFacesView::Variants(n) => {
            let v = chosen_variant(file.auto_faces, meta.id, n as nat);
            &&& has_face(meta, v as usize)
            &&& use_count(file.auto_faces, meta.id, v as int) < usize::MAX
        },
    }
}

/// The slots `add_cards` appends for a card.
pub open spec fn added_slots(file: PrintFileView, meta: CardView) -> Seq<SlotView> {
    match meta.faces {
        AltFacesView::Single => seq![card_slot(meta, None)],
        AltFacesView::Multiple(titles) => seq![card_slot(meta, Some(Some(1)))] + Seq::new(
            titles.len(),
            |k: int| card_slot(meta, Some(Some((k + 2) as usize))),
        ),
        AltFacesView::Variants(n) => seq![
            card_slot(meta, Some(Some(chosen_variant(file.auto_faces, meta.id, n as nat) as usize))),
        ],
    }
}

/// The use counts after `add_cards`: one more for the chosen variant.
pub open spec fn added_auto_faces(file: PrintFileView, meta: CardView) -> Map<(Seq<char>, usize), usize> {
    match meta.faces {
        AltFacesView::Variants(n) => {
            let v = chosen_variant(file.auto_faces, meta.id, n as nat);
            file.auto_faces.insert(
                (meta.id, v as usize),
                (use_count(file.auto_faces, meta.id, v as int) + 1) as usize,
            )
        },
        _ => file.auto_faces,
    }
}

/// The use count that a slot gives back when it leaves face `printing` of a
/// variant card of `group`.
pub open spec fn released_variant(slot: SlotView, group: Seq<char>, library: MultiLibraryView) -> Option<
    (Seq<char>, usize),
> {
    match slot {
        SlotView::Card { printing, .. } => match printing.face {
            Some(v) => {
                if library.libraries.contains_key(group) && library.libraries[group].faces.contains_key(
                    printing,
                ) && library.libraries[group].cards.contains_key(
                    library.libraries[group].faces[printing].card_id,
                ) {
                    let card = library.libraries[group].cards[library.libraries[group].faces[printing].card_id];
                    match card.faces {
                        AltFacesView::Variants(_) => Some((card.id, v)),
                        _ => None,
                    }
                } else {
                    None
                }
            },
            None => None,
        },
        SlotView::Insert { .. } => None,
    }
}

/// One use fewer (not below zero) for `key`.
pub open spec fn released(auto: Map<(Seq<char>, usize), usize>, key: Option<(Seq<char>, usize)>) -> Map<
    (Seq<char>, usize),
    usize,
> {
    match key {
        Some(k) => auto.insert(
            k,
            if auto.contains_key(k) && auto[k] > 0 {
                (auto[k] - 1) as usize
            } else {
                0
            },
        ),
        None => auto,
    }
}

/// The greatest printing under a filter is the one `greatest_with` finds.
pub proof fn lemma_greatest_is(s: Set<FaceKey>, face: Option<Option<usize>>, x: FaceKey)
    requires
        greatest_with(s, face, x),
    ensures
        greatest_printing(s, face) == x,
{
    let y = greatest_printing(s, face);
    lemma_greatest_unique(s, face, x, y);
}

impl PrintFile {
    /// A print file with these slots and use counts.
    pub fn from_parts(slots: Vec<FilledCardSlot>, auto_faces: AssocList<AutoFaceKey, usize>) -> (r: Self)
        ensures
            r@.slots == slots@.map_values(|s: FilledCardSlot| s@),
            r@.auto_faces == auto_faces@,
    {
        PrintFile { slots, auto_faces }
    }

    /// The use counts of automatically picked variants.
    pub fn auto_faces(&self) -> (r: &AssocList<AutoFaceKey, usize>)
        ensures
            r@ == self@.auto_faces,
    {
        &self.auto_faces
    }

    pub fn clear(&mut self)
        ensures
            final(self)@.slots == Seq::<SlotView>::empty(),
            final(self)@.auto_faces == Map::<(Seq<char>, usize), usize>::empty(),
    {
        self.slots.clear();
        self.auto_faces.clear();
        assert(self@.slots =~= Seq::<SlotView>::empty());
    }

    pub fn len(&self) -> (r: usize)
        ensures
            r == self@.slots.len(),
    {
        self.slots.len()
    }

    pub fn is_empty(&self) -> (r: bool)
        ensures
            r == (self@.slots.len() == 0),
    {
        self.slots.len() == 0
    }

    pub fn all(&self) -> (r: &[FilledCardSlot])
        ensures
            r@.map_values(|s: FilledCardSlot| s@) == self@.slots,
    {
        self.slots.as_slice()
    }

    pub fn get(&self, index: usize) -> (r: Option<&FilledCardSlot>)
        ensures
            match r {
                Some(s) => index < self@.slots.len() && s@ == self@.slots[index as int],
                None => index >= self@.slots.len(),
            },
    {
        if index < self.slots.len() {
            Some(&self.slots[index])
        } else {
            None
        }
    }

    pub fn add_insert(&mut self, insert: InsertId)
        ensures
            final(self)@.slots == old(self)@.slots.push(SlotView::Insert { insert: insert@ }),
            final(self)@.auto_faces == old(self)@.auto_faces,
    {
        self.slots.push(FilledCardSlot::Insert { insert });
        assert(self@.slots =~= old(self)@.slots.push(SlotView::Insert { insert: insert@ }));
    }

    /// One use fewer for `key`.
    fn release(&mut self, key: AutoFaceKey)
        ensures
            final(self)@.auto_faces == released(old(self)@.auto_faces, Some(key@)),
            final(self)@.slots == old(self)@.slots,
    {
        match self.auto_faces.position(&key) {
            Some(i) => {
                proof {
                    use_type_invariant(&self.auto_faces);
                    self.auto_faces.lemma_keys();
                }
                let count = *self.auto_faces.value_at(i);
                let next = if count > 0 { count - 1 } else { 0 };
                self.auto_faces.set_value_at(i, next);
            },
            None => {
                self.auto_faces.insert(key, 0);
            },
        }
    }

    /// The card whose variant use `slot` gives back, looked up in `group`.
    fn released_key(slot: &FilledCardSlot, group: &String, state: &ActiveState) -> (r: Option<AutoFaceKey>)
        ensures
            match r {
                Some(k) => released_variant(slot@, group@, state@.library) == Some(k@),
                None => released_variant(slot@, group@, state@.library) is None,
            },
    {
        if let FilledCardSlot::Card { printing, .. } = slot {
            if let Some(variant) = printing.face_or_variant_specifier {
                if let Some(library) = state.library.libraries.get(group) {
                    if let Some(card) = library.try_get_face_card(printing) {
                        if let AlternateFaceMetadata::Variants(_) = card.alternate_face_data {
                            return Some(AutoFaceKey { card_id: card.id.deep_copy(), variant });
                        }
                    }
                }
            }
        }
        None
    }

    /// Removes slot `index` (nothing happens past the end); removing an
    /// automatically picked variant gives its use back.
    pub fn remove_card(&mut self, index: usize, state: &ActiveState)
        ensures
            index < old(self)@.slots.len() ==> {
                &&& final(self)@.slots == old(self)@.slots.remove(index as int)
                &&& final(self)@.auto_faces == released(
                    old(self)@.auto_faces,
                    match old(self)@.slots[index as int] {
                        SlotView::Card { printing, .. } => released_variant(
                            old(self)@.slots[index as int],
                            printing.group,
                            state@.library,
                        ),
                        SlotView::Insert { .. } => None,
                    },
                )
            },
            index >= old(self)@.slots.len() ==> final(self)@ == old(self)@,
    {
        if index < self.slots.len() {
            let slot = self.slots.remove(index);
            assert(self@.slots =~= old(self)@.slots.remove(index as int));
            if let FilledCardSlot::Card { printing, .. } = &slot {
                if let Some(key) = Self::released_key(&slot, &printing.print_group, state) {
                    self.release(key);
                }
            }
        }
    }

    /// Replaces slot `index` by printing `card` (nothing happens past the
    /// end), giving back the use of an automatically picked variant and
    /// remembering the card the new printing belongs to.
    pub fn update_card(&mut self, index: usize, card: CardFacePrintingId, state: &ActiveState)
        ensures
            index < old(self)@.slots.len() ==> {
                &&& final(self)@.slots == old(self)@.slots.update(
                    index as int,
                    SlotView::Card {
                        printing: card@,
                        card_id: if state@.library.libraries.contains_key(card@.group)
                            && state@.library.libraries[card@.group].faces.contains_key(card@) {
                            Some(state@.library.libraries[card@.group].faces[card@].card_id)
                        } else {
                            None
                        },
                    },
                )
                &&& final(self)@.auto_faces == released(
                    old(self)@.auto_faces,
                    released_variant(old(self)@.slots[index as int], card@.group, state@.library),
                )
            },
            index >= old(self)@.slots.len() ==> final(self)@ == old(self)@,
    {
        if index < self.slots.len() {
            assert(old(self)@.slots[index as int] == self.slots@[index as int]@);
            if let Some(key) = Self::released_key(&self.slots[index], &card.print_group, state) {
                self.release(key);
            }
            let card_id = match state.library.libraries.get(&card.print_group) {
                Some(group) => match group.faces.get(&card) {
                    Some(p) => Some(p.card_id.deep_copy()),
                    None => None,
                },
                None => None,
            };
            let ghost before = self@.slots;
            assert(self@.slots.len() == self.slots@.len());
            self.slots.set(index, FilledCardSlot::Card { printing: card, card_id });
            assert(self@.slots =~= before.update(index as int, self@.slots[index as int]));
        }
    }

    fn use_count_of(&self, id: &CardId, v: usize) -> (r: usize)
        ensures
            r == use_count(self@.auto_faces, id@, v as int),
    {
        let key = AutoFaceKey { card_id: id.deep_copy(), variant: v };
        match self.auto_faces.get(&key) {
            Some(c) => *c,
            None => 0,
        }
    }

    /// The use count and variant the next automatic pick among `n` variants
    /// of card `id` settles on.
    fn next_variant(&self, id: &CardId, n: usize) -> (r: (usize, usize))
        ensures
            r.0 as nat == variant_scan(self@.auto_faces, id@, n as nat).0,
            r.1 as nat == variant_scan(self@.auto_faces, id@, n as nat).1,
            1 <= r.1,
            n >= 1 ==> r.1 <= n,
    {
        let mut best_count: usize = usize::MAX;
        let mut best: usize = 1;
        let mut i: usize = 0;
        while i < n
            invariant
                i <= n,
                best_count as nat == variant_scan(self@.auto_faces, id@, i as nat).0,
                best as nat == variant_scan(self@.auto_faces, id@, i as nat).1,
                1 <= best,
                i >= 1 ==> best <= i,
            decreases n - i,
        {
            let v = i + 1;
            let observed = self.use_count_of(id, v);
            if observed < best_count {
                best_count = observed;
                best = v;
            }
            i += 1;
        }
        (best_count, best)
    }

    /// Whether `add_cards(meta)` can run: see `can_add`.
    pub fn can_add_cards(&self, meta: &CardMetadata) -> (r: bool)
        ensures
            r == can_add(self@, meta@),
    {
        match &meta.alternate_face_data {
            AlternateFaceMetadata::Single => meta.printings.len() > 0,
            AlternateFaceMetadata::Multiple(titles) => {
                let ghost m = meta@;
                let ghost tv = crate::library::title_views(titles@);
                assert(m.faces == AltFacesView::Multiple(tv));
                if titles.len() == usize::MAX {
                    return false;
                }
                let first = meta.printings.greatest_with_face(Some(1));
                if first.is_none() {
                    assert(!has_face(m, 1));
                    return false;
                }
                proof {
                    let x = first.unwrap()@;
                    assert(m.printings.contains(x) && x.face == Some(1usize));
                }
                let mut k: usize = 0;
                while k < titles.len()
                    invariant
                        k <= titles.len(),
                        titles.len() < usize::MAX,
                        tv.len() == titles.len(),
                        m == meta@,
                        m.faces == AltFacesView::Multiple(tv),
                        has_face(m, 1),
                        forall|j: int| 0 <= j < k ==> #[trigger] has_face(m, (j + 2) as usize),
                    decreases titles.len() - k,
                {
                    let found = meta.printings.greatest_with_face(Some(k + 2));
                    if found.is_none() {
                        assert(!has_face(m, (k + 2) as usize));
                        return false;
                    }
                    proof {
                        let x = found.unwrap()@;
                        assert(m.printings.contains(x) && x.face == Some((k + 2) as usize));
                    }
                    k += 1;
                }
                true
            },
            AlternateFaceMetadata::Variants(n) => {
                let (_, v) = self.next_variant(&meta.id, *n);
                let observed = self.use_count_of(&meta.id, v);
                let found = meta.printings.greatest_with_face(Some(v));
                proof {
                    if found.is_none() {
                        assert(!has_face(meta@, v));
                    } else {
                        let x = found.unwrap()@;
                        assert(meta@.printings.contains(x) && x.face == Some(v));
                    }
                }
                observed < usize::MAX && found.is_some()
            },
        }
    }

    /// Appends the slots for a card: its greatest printing for a single card;
    /// face 1 and each further face for a card with several faces; for a card
    /// with variants, the least used variant (the first of equals), whose use
    /// is counted.
    pub fn add_cards(&mut self, meta: &CardMetadata)
        requires
            can_add(old(self)@, meta@),
        ensures
            final(self)@.slots == old(self)@.slots + added_slots(old(self)@, meta@),
            final(self)@.auto_faces == added_auto_faces(old(self)@, meta@),
    {
        let ghost m = meta@;
        match &meta.alternate_face_data {
            AlternateFaceMetadata::Single => {
                proof {
                    if meta.printings@ == Set::<FaceKey>::empty() {
                        assert(meta.printings@.len() == 0);
                    }
                }
                let p = meta.printings.greatest().unwrap();
                proof {
                    lemma_greatest_is(m.printings, None, p@);
                }
                let slot = FilledCardSlot::Card { printing: p.deep_copy(), card_id: Some(meta.id.deep_copy()) };
                self.slots.push(slot);
                assert(self@.slots =~= old(self)@.slots + added_slots(old(self)@, m));
            },
            AlternateFaceMetadata::Multiple(titles) => {
                let ghost tv = crate::library::title_views(titles@);
                let first = meta.printings.greatest_with_face(Some(1));
                proof {
                    if first.is_none() {
                        let x = choose|x: FaceKey| #[trigger] m.printings.contains(x) && x.face == Some(1usize);
                        assert(m.printings.contains(x));
                    }
                }
                let p = first.unwrap();
                proof {
                    lemma_greatest_is(m.printings, Some(Some(1usize)), p@);
                }
                self.slots.push(FilledCardSlot::Card { printing: p.deep_copy(), card_id: Some(meta.id.deep_copy()) });
                let mut k: usize = 0;
                while k < titles.len()
                    invariant
                        k <= titles.len(),
                        tv.len() == titles.len(),
                        m == meta@,
                        m.faces == AltFacesView::Multiple(tv),
                        can_add(old(self)@, m),
                        self@.auto_faces == old(self)@.auto_faces,
                        self@.slots == old(self)@.slots + added_slots(old(self)@, m).subrange(0, k + 1),
                    decreases titles.len() - k,
                {
                    assert(has_face(m, (k + 2) as usize));
                    let face = k + 2;
                    let next = meta.printings.greatest_with_face(Some(face));
                    proof {
                        if next.is_none() {
                            let x = choose|x: FaceKey| #[trigger] m.printings.contains(x) && x.face == Some(face);
                            assert(m.printings.contains(x));
                        }
                    }
                    let p = next.unwrap();
                    proof {
                        lemma_greatest_is(m.printings, Some(Some(face)), p@);
                    }
                    let slot = FilledCardSlot::Card { printing: p.deep_copy(), card_id: Some(meta.id.deep_copy()) };
                    let ghost added = added_slots(old(self)@, m);
                    assert(added[k + 1] == card_slot(m, Some(Some(face))));
                    assert(slot@ == added[k + 1]);
                    let ghost before = self@.slots;
                    self.slots.push(slot);
                    assert(self@.slots =~= before.push(slot@));
                    assert(added.subrange(0, k + 2) =~= added.subrange(0, k + 1).push(added[k + 1]));
                    assert(self@.slots =~= old(self)@.slots + added.subrange(0, k + 2));
                    k += 1;
                }
                assert(added_slots(old(self)@, m).subrange(0, titles.len() + 1) =~= added_slots(old(self)@, m));
            },
            AlternateFaceMetadata::Variants(n) => {
                let (_, v) = self.next_variant(&meta.id, *n);
                let count = self.use_count_of(&meta.id, v);
                let key = AutoFaceKey { card_id: meta.id.deep_copy(), variant: v };
                match self.auto_faces.position(&key) {
                    Some(i) => {
                        proof {
                            use_type_invariant(&self.auto_faces);
                            self.auto_faces.lemma_keys();
                        }
                        self.auto_faces.set_value_at(i, count + 1);
                    },
                    None => {
                        self.auto_faces.insert(key, count + 1);
                    },
                }
                let next = meta.printings.greatest_with_face(Some(v));
                proof {
                    if next.is_none() {
                        let x = choose|x: FaceKey| #[trigger] m.printings.contains(x) && x.face == Some(v);
                        assert(m.printings.contains(x));
                    }
                }
                let p = next.unwrap();
                proof {
                    lemma_greatest_is(m.printings, Some(Some(v)), p@);
                }
                self.slots.push(FilledCardSlot::Card { printing: p.deep_copy(), card_id: Some(meta.id.deep_copy()) });
                assert(self@.slots =~= old(self)@.slots + added_slots(old(self)@, m));
            },
        }
    }
}

} // verus!
