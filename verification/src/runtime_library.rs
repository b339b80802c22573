//! Assemble one consistent library and image map before making either visible.

use vstd::prelude::*;
use crate::assoc::{AssocList, DeepCopy, KeyEq, KeySet};
use crate::library::{
    title_views, ActiveState, ActiveStateView, AltFacesView, AlternateFaceMetadata, CardFacePrintingId, CardId, CardMetadata, CardView,
    FaceKey, FilledCardSlot, Library, LibraryView, MultiLibrary, MultiLibraryView, PrintingMetadata,
    PrintingView, PublishedAssetIndex, PublishedView, SlotView, Title, TitleView,
};
use crate::proxy_consumer::{
    FaceKind, FaceMetaView, PrintingMetaView, ProxyIndex, ProxyIndexError, ProxyPrinting, ProxyPrintingView,
    proxy_printing_views, proxy_index_verdict, validate_proxy_index, lemma_accepted_printings_have_faces,
    feed_error_message, feed_error_text,
};
use crate::published::{CatalogError, CatalogView, PublishedAssetCatalog, published_asset_index, published_index};
use crate::library::overlaid;
use crate::proxy_consumer::ProxyIndexView;
use crate::scan::{try_fold, lemma_try_fold_next, lemma_try_fold_all, lemma_try_fold_err};
use crate::text::{ascii_only, ascii_only_string, str_eq};

verus! {

/// A title and its ASCII-only form.
pub open spec fn title_of(text: Seq<char>) -> TitleView {
    TitleView { title: text, stripped: ascii_only(text) }
}

pub fn title(text: &str) -> (r: Title)
    ensures
        r@ == title_of(text@),
{
    Title { title: String::from_str(text), stripped_title: ascii_only_string(text) }
}

/// A saved slot can be shown and printed only while the library still has its
/// printing (for the same card it was chosen for) or its insert.
pub open spec fn slot_available_spec(slot: SlotView, library: MultiLibraryView) -> bool {
    match slot {
        SlotView::Card { printing, card_id } => {
            &&& library.libraries.contains_key(printing.group)
            &&& library.libraries[printing.group].faces.contains_key(printing)
            &&& (card_id matches Some(c) ==> c == library.libraries[printing.group].faces[printing].card_id)
        },
        SlotView::Insert { insert } => {
            &&& library.libraries.contains_key(insert.group)
            &&& library.libraries[insert.group].inserts.contains_key(insert)
        },
    }
}

/// Missing saved aliases never fall back to a guessed legacy image URL.
pub fn slot_available(slot: &FilledCardSlot, library: &MultiLibrary) -> (r: bool)
    ensures
        r == slot_available_spec(slot@, library@),
{
    match slot {
        FilledCardSlot::Card { printing, card_id } => match library.libraries.get(&printing.print_group) {
            Some(group) => match group.faces.get(printing) {
                Some(meta) => match card_id {
                    Some(expected) => expected.key_eq(&meta.card_id),
                    None => true,
                },
                None => false,
            },
            None => false,
        },
        FilledCardSlot::Insert { insert } => match library.libraries.get(&insert.print_group) {
            Some(group) => group.inserts.contains_key(insert),
            None => false,
        },
    }
}

/// Why a print list cannot be printed.
#[derive(Debug, PartialEq, Eq)]
pub enum PrintListError {
    /// The list is empty.
    Empty,
    /// Some slot's printing or insert is no longer available.
    Unavailable,
}

impl PrintListError {
    /// The message shown to the user.
    pub fn message(&self) -> (r: String)
        ensures
            r@ == match self {
                PrintListError::Empty => "add a card before printing"@,
                PrintListError::Unavailable => "cannot print this selection: A saved printing is unavailable. Remove it and choose a current printing."@,
            },
    {
        match self {
            PrintListError::Empty => String::from_str("add a card before printing"),
            PrintListError::Unavailable => String::from_str(
                "cannot print this selection: A saved printing is unavailable. Remove it and choose a current printing.",
            ),
        }
    }
}

/// A print list can be printed when it is not empty and every slot is available.
pub fn validate_print_list(slots: &[FilledCardSlot], library: &MultiLibrary) -> (r: Result<
    (),
    PrintListError,
>)
    ensures
        slots@.len() == 0 ==> r == Err::<(), PrintListError>(PrintListError::Empty),
        slots@.len() > 0 && (exists|i: int|
            0 <= i < slots@.len() && !slot_available_spec((#[trigger] slots@[i])@, library@)) ==> r
            == Err::<(), PrintListError>(PrintListError::Unavailable),
        r is Ok <==> slots@.len() > 0 && forall|i: int|
            0 <= i < slots@.len() ==> slot_available_spec((#[trigger] slots@[i])@, library@),
{
    if slots.len() == 0 {
        return Err(PrintListError::Empty);
    }
    let mut i: usize = 0;
    while i < slots.len()
        invariant
            i <= slots@.len(),
            forall|j: int| 0 <= j < i ==> slot_available_spec((#[trigger] slots@[j])@, library@),
        decreases slots@.len() - i,
    {
        if !slot_available(&slots[i], library) {
            return Err(PrintListError::Unavailable);
        }
        i += 1;
    }
    Ok(())
}

/// Why the feed was not loaded.
#[derive(Debug, Clone, Copy, PartialEq, Eq, Structural)]
pub enum LoadError {
    /// The feed failed validation.
    Invalid(ProxyIndexError),
    /// The public aliases of one printing belong to different cards.
    AliasesReferToDifferentCards,
    /// Some but not all face aliases are known, and no identity is given.
    IncompleteAliases,
    /// A known alias belongs to another card than the chosen identity.
    AliasConflictsWithIdentity,
    /// An explicit upstream identity would duplicate the stable one.
    DuplicatesExistingCard,
    /// The card exists with another title or other face titles.
    ConflictsWithExistingCard,
    /// Two faces of the feed map the same alias to an image.
    DuplicateDynamicAlias,
}

impl LoadError {
    /// The text shown for the error, as characters.
    pub open spec fn message_text(self) -> Seq<char> {
        match self {
            LoadError::Invalid(e) => e.message_text(),
            LoadError::AliasesReferToDifferentCards => "public aliases refer to different cards"@,
            LoadError::IncompleteAliases => "cannot infer an upstream identity from incomplete face aliases"@,
            LoadError::AliasConflictsWithIdentity => "public printing alias conflicts with card identity"@,
            LoadError::DuplicatesExistingCard => "explicit upstream identity would duplicate an existing card"@,
            LoadError::ConflictsWithExistingCard => "published metadata conflicts with existing card or face titles"@,
            LoadError::DuplicateDynamicAlias => "duplicate dynamic image alias"@,
        }
    }

    /// The text shown for the error.
    pub fn message(&self) -> (r: &'static str)
        ensures
            r@ == self.message_text(),
    {
        match self {
            LoadError::Invalid(e) => e.message(),
            LoadError::AliasesReferToDifferentCards => "public aliases refer to different cards",
            LoadError::IncompleteAliases => "cannot infer an upstream identity from incomplete face aliases",
            LoadError::AliasConflictsWithIdentity => "public printing alias conflicts with card identity",
            LoadError::DuplicatesExistingCard => "explicit upstream identity would duplicate an existing card",
            LoadError::ConflictsWithExistingCard => "published metadata conflicts with existing card or face titles",
            LoadError::DuplicateDynamicAlias => "duplicate dynamic image alias",
        }
    }
}

/// The text shown for a feed that was not loaded, with the parser's reason
/// where a parser refused it (see `feed_error_text`).
pub open spec fn load_error_text(error: LoadError, asset_base: Seq<char>, printings: Seq<ProxyPrintingView>) -> Seq<char> {
    match error {
        LoadError::Invalid(e) => feed_error_text(e, asset_base, printings),
        _ => error.message_text(),
    }
}

/// The text shown for a feed that was not loaded, from the error and the
/// asset base URL and printings it was loaded with.
pub fn load_error_message(error: LoadError, asset_base: &str, printings: &[ProxyPrinting]) -> (r: String)
    ensures
        r@ == load_error_text(error, asset_base@, proxy_printing_views(printings@)),
{
    match error {
        LoadError::Invalid(e) => feed_error_message(e, asset_base, printings),
        _ => String::from_str(error.message()),
    }
}

/// The face number a selector names.
pub open spec fn selector_face(s: Option<u16>) -> Option<usize> {
    match s {
        Some(v) => Some(v as usize),
        None => None,
    }
}

/// The public alias of each face of a printing.
pub open spec fn aliases_of(m: PrintingMetaView) -> Seq<FaceKey> {
    Seq::new(
        m.faces.len(),
        |i: int| FaceKey { id: m.printing_id, face: selector_face(m.faces[i].selector), group: m.print_group },
    )
}

pub open spec fn empty_library() -> LibraryView {
    LibraryView { cards: Map::empty(), faces: Map::empty(), inserts: Map::empty() }
}

/// A print group's library (empty if there is none yet).
pub open spec fn group_of(library: MultiLibraryView, group: Seq<char>) -> LibraryView {
    if library.libraries.contains_key(group) {
        library.libraries[group]
    } else {
        empty_library()
    }
}

/// The card identity that a printing's metadata settles on in its group: the
/// upstream identity if given; else the stable identity if the group has that
/// card; else, if every alias is known, the card they belong to; else the
/// stable identity if no alias is known.  Known aliases must agree with one
/// another and with the identity, and an upstream identity may not stand
/// beside an existing stable one.
pub open spec fn card_identity_verdict(group: LibraryView, m: PrintingMetaView) -> Result<Seq<char>, LoadError> {
    let aliases = aliases_of(m);
    let stable = m.card_id;
    if exists|i: int, j: int|
        0 <= i < aliases.len() && 0 <= j < aliases.len() && #[trigger] group.faces.contains_key(aliases[i])
            && #[trigger] group.faces.contains_key(aliases[j]) && group.faces[aliases[i]].card_id
            != group.faces[aliases[j]].card_id {
        Err(LoadError::AliasesReferToDifferentCards)
    } else {
        let chosen: Result<Seq<char>, LoadError> = match m.upstream_card_id {
            Some(u) => Ok(u),
            None => if group.cards.contains_key(stable) {
                Ok(stable)
            } else if forall|i: int| 0 <= i < aliases.len() ==> #[trigger] group.faces.contains_key(aliases[i]) {
                Ok(group.faces[aliases[0]].card_id)
            } else if forall|i: int| 0 <= i < aliases.len() ==> !#[trigger] group.faces.contains_key(aliases[i]) {
                Ok(stable)
            } else {
                Err(LoadError::IncompleteAliases)
            },
        };
        match chosen {
            Err(e) => Err(e),
            Ok(card_id) => if exists|i: int|
                0 <= i < aliases.len() && #[trigger] group.faces.contains_key(aliases[i])
                    && group.faces[aliases[i]].card_id != card_id {
                Err(LoadError::AliasConflictsWithIdentity)
            } else if card_id != stable && group.cards.contains_key(stable) {
                Err(LoadError::DuplicatesExistingCard)
            } else {
                Ok(card_id)
            },
        }
    }
}

/// The titles of the faces after the front one.
pub open spec fn back_titles(faces: Seq<FaceMetaView>) -> Seq<TitleView> {
    Seq::new(
        if faces.len() > 0 {
            (faces.len() - 1) as nat
        } else {
            0
        },
        |i: int| title_of(faces[i + 1].title),
    )
}

/// The face data that a printing's metadata describes.
pub open spec fn faces_meta_of(m: PrintingMetaView) -> AltFacesView {
    match m.face_kind {
        FaceKind::Single => AltFacesView::Single,
        FaceKind::Multiple => AltFacesView::Multiple(back_titles(m.faces)),
        FaceKind::Variants => AltFacesView::Variants(m.faces.len() as usize),
    }
}

pub open spec fn title_texts(titles: Seq<TitleView>) -> Seq<Seq<char>> {
    titles.map_values(|t: TitleView| t.title)
}

/// The same face data, comparing exact display titles.
pub open spec fn same_faces(a: AltFacesView, b: AltFacesView) -> bool {
    match (a, b) {
        (AltFacesView::Single, AltFacesView::Single) => true,
        (AltFacesView::Variants(x), AltFacesView::Variants(y)) => x == y,
        (AltFacesView::Multiple(x), AltFacesView::Multiple(y)) => title_texts(x) == title_texts(y),
        _ => false,
    }
}

/// The library and the dynamic image map while a feed is loaded.
pub ghost struct LoadState {
    pub library: MultiLibraryView,
    pub assets: Map<FaceKey, Seq<char>>,
}

/// Each face alias of a printing paired with its image URL.
pub open spec fn dynamic_pairs(p: ProxyPrintingView) -> Seq<(FaceKey, Seq<char>)> {
    let aliases = aliases_of(p.metadata);
    let n = if aliases.len() <= p.images.len() {
        aliases.len()
    } else {
        p.images.len()
    };
    Seq::new(n, |i: int| (aliases[i], p.images[i].url))
}

/// One alias added to the card's printings, the group's faces and the image
/// map, which must not have it yet.
pub open spec fn alias_step(
    st: (Set<FaceKey>, Map<FaceKey, PrintingView>, Map<FaceKey, Seq<char>>),
    pair: (FaceKey, Seq<char>),
    card_id: Seq<char>,
    printing_name: Seq<char>,
) -> Result<(Set<FaceKey>, Map<FaceKey, PrintingView>, Map<FaceKey, Seq<char>>), LoadError> {
    if st.2.contains_key(pair.0) {
        Err(LoadError::DuplicateDynamicAlias)
    } else {
        Ok(
            (
                st.0.insert(pair.0),
                st.1.insert(pair.0, PrintingView { id: pair.0, card_id, printing_name }),
                st.2.insert(pair.0, pair.1),
            ),
        )
    }
}

pub open spec fn alias_stepper(card_id: Seq<char>, printing_name: Seq<char>) -> spec_fn(
    (Set<FaceKey>, Map<FaceKey, PrintingView>, Map<FaceKey, Seq<char>>),
    (FaceKey, Seq<char>),
) -> Result<(Set<FaceKey>, Map<FaceKey, PrintingView>, Map<FaceKey, Seq<char>>), LoadError> {
    |st: (Set<FaceKey>, Map<FaceKey, PrintingView>, Map<FaceKey, Seq<char>>), pair: (FaceKey, Seq<char>)|
        alias_step(st, pair, card_id, printing_name)
}

/// The card a printing adds to (the existing one, or a new one without
/// printings).
pub open spec fn base_card(group: LibraryView, card_id: Seq<char>, m: PrintingMetaView) -> CardView {
    if group.cards.contains_key(card_id) {
        group.cards[card_id]
    } else {
        CardView { title: title_of(m.title), faces: faces_meta_of(m), id: card_id, printings: Set::empty() }
    }
}

/// One printing of the feed merged into the library and the image map.
pub open spec fn entry_step(st: LoadState, p: ProxyPrintingView) -> Result<LoadState, LoadError> {
    let m = p.metadata;
    let g = m.print_group;
    let group = group_of(st.library, g);
    match card_identity_verdict(group, m) {
        Err(e) => Err(e),
        Ok(card_id) => if group.cards.contains_key(card_id) && !(group.cards[card_id].title.title == m.title
            && same_faces(group.cards[card_id].faces, faces_meta_of(m))) {
            Err(LoadError::ConflictsWithExistingCard)
        } else {
            let card = base_card(group, card_id, m);
            match try_fold(dynamic_pairs(p), (card.printings, group.faces, st.assets), alias_stepper(card_id, m.printing_name)) {
                Err(e) => Err(e),
                Ok(after) => Ok(entry_result(st, g, group, card_id, card, after)),
            }
        },
    }
}

/// The library and image map after a printing's aliases were added to `card`
/// of `group`.
pub open spec fn entry_result(
    st: LoadState,
    g: Seq<char>,
    group: LibraryView,
    card_id: Seq<char>,
    card: CardView,
    after: (Set<FaceKey>, Map<FaceKey, PrintingView>, Map<FaceKey, Seq<char>>),
) -> LoadState {
    LoadState {
        library: MultiLibraryView {
            libraries: st.library.libraries.insert(
                g,
                LibraryView {
                    cards: group.cards.insert(card_id, CardView { printings: after.0, ..card }),
                    faces: after.1,
                    inserts: group.inserts,
                },
            ),
            collection_names: if st.library.collection_names.contains_key(g) {
                st.library.collection_names
            } else {
                st.library.collection_names.insert(g, g)
            },
            ..st.library
        },
        assets: after.2,
    }
}

pub open spec fn entry_stepper() -> spec_fn(LoadState, ProxyPrintingView) -> Result<LoadState, LoadError> {
    |st: LoadState, p: ProxyPrintingView| entry_step(st, p)
}

/// The bundled library with every printing of the feed merged in, in order,
/// and the image of each new alias.
pub open spec fn loaded(base: MultiLibraryView, printings: Seq<ProxyPrintingView>) -> Result<LoadState, LoadError> {
    try_fold(printings, LoadState { library: base, assets: Map::empty() }, entry_stepper())
}

/// The public alias of each face of a printing.
fn alias_list(m: &crate::proxy_consumer::PrintingMetadata) -> (r: Vec<CardFacePrintingId>)
    ensures
        r@.len() == aliases_of(m@).len(),
        forall|i: int| 0 <= i < r@.len() ==> (#[trigger] r@[i])@ == aliases_of(m@)[i],
{
    let mut r: Vec<CardFacePrintingId> = Vec::new();
    let mut i: usize = 0;
    while i < m.faces.len()
        invariant
            i <= m.faces.len(),
            m@.faces.len() == m.faces.len(),
            r@.len() == i,
            forall|j: int| 0 <= j < i ==> (#[trigger] r@[j])@ == aliases_of(m@)[j],
        decreases m.faces.len() - i,
    {
        let face: Option<usize> = match m.faces[i].selector {
            Some(s) => Some(s as usize),
            None => None,
        };
        assert(m@.faces[i as int] == m.faces[i as int]@);
        r.push(CardFacePrintingId { id: m.printing_id, face_or_variant_specifier: face, print_group: m.print_group.clone() });
        i += 1;
    }
    r
}

/// The face data that a printing's metadata describes.
fn faces_of(m: &crate::proxy_consumer::PrintingMetadata) -> (r: AlternateFaceMetadata)
    ensures
        r@ == faces_meta_of(m@),
{
    match m.face_kind {
        FaceKind::Single => AlternateFaceMetadata::Single,
        FaceKind::Variants => AlternateFaceMetadata::Variants(m.faces.len()),
        FaceKind::Multiple => {
            let ghost fv = m@.faces;
            let mut titles: Vec<Title> = Vec::new();
            let mut i: usize = 1;
            while i < m.faces.len()
                invariant
                    1 <= i,
                    fv == m@.faces,
                    fv.len() == m.faces.len(),
                    i <= m.faces.len() || (m.faces.len() == 0 && i == 1),
                    titles@.len() == i - 1,
                    forall|j: int| 0 <= j < titles@.len() ==> (#[trigger] titles@[j])@ == title_of(fv[j + 1].title),
                decreases m.faces.len() - i,
            {
                assert(fv[i as int] == m.faces[i as int]@);
                titles.push(title(m.faces[i].title.as_str()));
                i += 1;
            }
            let r = AlternateFaceMetadata::Multiple(titles);
            assert(r@ == AltFacesView::Multiple(back_titles(fv))) by {
                assert(title_views(titles@).len() == back_titles(fv).len());
                assert forall|j: int| 0 <= j < titles@.len() implies title_views(titles@)[j] == back_titles(fv)[j] by {
                    assert(titles@[j]@ == title_of(fv[j + 1].title));
                }
                assert(title_views(titles@) =~= back_titles(fv));
            }
            r
        },
    }
}

/// Whether two face descriptions agree on their exact display titles.
fn same_faces_exec(a: &AlternateFaceMetadata, b: &AlternateFaceMetadata) -> (r: bool)
    ensures
        r == same_faces(a@, b@),
{
    match (a, b) {
        (AlternateFaceMetadata::Single, AlternateFaceMetadata::Single) => true,
        (AlternateFaceMetadata::Variants(x), AlternateFaceMetadata::Variants(y)) => *x == *y,
        (AlternateFaceMetadata::Multiple(x), AlternateFaceMetadata::Multiple(y)) => {
            let ghost xs = title_texts(title_views(x@));
            let ghost ys = title_texts(title_views(y@));
            assert(a@ == AltFacesView::Multiple(title_views(x@)));
            assert(b@ == AltFacesView::Multiple(title_views(y@)));
            if x.len() != y.len() {
                assert(xs.len() != ys.len());
                return false;
            }
            let mut i: usize = 0;
            while i < x.len()
                invariant
                    i <= x.len(),
                    x.len() == y.len(),
                    xs == title_texts(title_views(x@)),
                    ys == title_texts(title_views(y@)),
                    a@ == AltFacesView::Multiple(title_views(x@)),
                    b@ == AltFacesView::Multiple(title_views(y@)),
                    forall|j: int| 0 <= j < i ==> xs[j] == ys[j],
                decreases x.len() - i,
            {
                assert(xs[i as int] == x[i as int].title@);
                assert(ys[i as int] == y[i as int].title@);
                if !str_eq(x[i].title.as_str(), y[i].title.as_str()) {
                    assert(xs[i as int] != ys[i as int]);
                    return false;
                }
                i += 1;
            }
            assert(xs =~= ys);
            true
        },
        _ => false,
    }
}

/// The card identity a printing settles on in its group; see
/// `card_identity_verdict`.
fn card_identity(
    group: &Library,
    m: &crate::proxy_consumer::PrintingMetadata,
    aliases: &Vec<CardFacePrintingId>,
) -> (r: Result<CardId, LoadError>)
    requires
        aliases@.len() == aliases_of(m@).len(),
        forall|i: int| 0 <= i < aliases@.len() ==> (#[trigger] aliases@[i])@ == aliases_of(m@)[i],
        m.faces.len() > 0,
    ensures
        match card_identity_verdict(group@, m@) {
            Ok(c) => r matches Ok(x) && x@ == c,
            Err(e) => r == Err::<CardId, LoadError>(e),
        },
{
    let ghost al = aliases_of(m@);
    let ghost gv = group@;
    assert(al.len() == m.faces.len());
    let mut first: Option<CardId> = None;
    let mut all_known = true;
    let mut i: usize = 0;
    while i < aliases.len()
        invariant
            i <= aliases.len(),
            al == aliases_of(m@),
            gv == group@,
            aliases@.len() == al.len(),
            forall|k: int| 0 <= k < aliases@.len() ==> (#[trigger] aliases@[k])@ == al[k],
            all_known == (forall|j: int| 0 <= j < i ==> #[trigger] gv.faces.contains_key(al[j])),
            first is None ==> forall|j: int| 0 <= j < i ==> !#[trigger] gv.faces.contains_key(al[j]),
            first matches Some(c) ==> {
                &&& exists|j: int| 0 <= j < i && #[trigger] gv.faces.contains_key(al[j]) && gv.faces[al[j]].card_id == c@
                &&& forall|j: int| 0 <= j < i && #[trigger] gv.faces.contains_key(al[j]) ==> gv.faces[al[j]].card_id == c@
            },
        decreases aliases.len() - i,
    {
        assert(aliases@[i as int]@ == al[i as int]);
        match group.faces.get(&aliases[i]) {
            Some(pm) => {
                match &first {
                    None => {
                        first = Some(pm.card_id.deep_copy());
                    },
                    Some(c) => {
                        if !c.key_eq(&pm.card_id) {
                            let ghost j = choose|j: int|
                                0 <= j < i && #[trigger] gv.faces.contains_key(al[j]) && gv.faces[al[j]].card_id == c@;
                            assert(gv.faces.contains_key(al[j]) && gv.faces.contains_key(al[i as int]));
                            return Err(LoadError::AliasesReferToDifferentCards);
                        }
                    },
                }
            },
            None => {
                all_known = false;
            },
        }
        i += 1;
    }
    proof {
        if exists|x: int, y: int|
            0 <= x < al.len() && 0 <= y < al.len() && #[trigger] gv.faces.contains_key(al[x])
                && #[trigger] gv.faces.contains_key(al[y]) && gv.faces[al[x]].card_id != gv.faces[al[y]].card_id {
            let (x, y) = choose|x: int, y: int|
                0 <= x < al.len() && 0 <= y < al.len() && #[trigger] gv.faces.contains_key(al[x])
                    && #[trigger] gv.faces.contains_key(al[y]) && gv.faces[al[x]].card_id != gv.faces[al[y]].card_id;
            assert(gv.faces.contains_key(al[x]) && gv.faces.contains_key(al[y]));
        }
    }
    let stable = CardId(m.card_id.clone());
    let card_id: CardId = match &m.upstream_card_id {
        Some(u) => CardId(u.clone()),
        None => {
            if group.cards.contains_key(&stable) {
                stable.deep_copy()
            } else if all_known {
                assert(gv.faces.contains_key(al[0]));
                match &first {
                    Some(c) => c.deep_copy(),
                    None => {
                        return Err(LoadError::IncompleteAliases);
                    },
                }
            } else if first.is_none() {
                stable.deep_copy()
            } else {
                proof {
                    let c = first.unwrap();
                    let j = choose|j: int| 0 <= j < i && #[trigger] gv.faces.contains_key(al[j]) && gv.faces[al[j]].card_id == c@;
                    assert(gv.faces.contains_key(al[j]));
                    let k = choose|k: int| 0 <= k < i && !#[trigger] gv.faces.contains_key(al[k]);
                    assert(!gv.faces.contains_key(al[k]));
                }
                return Err(LoadError::IncompleteAliases);
            }
        },
    };
    if let Some(c) = &first {
        if !c.key_eq(&card_id) {
            proof {
                let j = choose|j: int| 0 <= j < i && #[trigger] gv.faces.contains_key(al[j]) && gv.faces[al[j]].card_id == c@;
                assert(gv.faces.contains_key(al[j]));
            }
            return Err(LoadError::AliasConflictsWithIdentity);
        }
    }
    if !card_id.key_eq(&stable) && group.cards.contains_key(&stable) {
        return Err(LoadError::DuplicatesExistingCard);
    }
    Ok(card_id)
}

/// Merges one printing of the feed into the library and the image map; see
/// `entry_step`.
fn load_entry(
    library: &mut MultiLibrary,
    assets: &mut AssocList<CardFacePrintingId, String>,
    entry: &ProxyPrinting,
) -> (r: Result<(), LoadError>)
    requires
        entry.metadata.faces.len() > 0,
    ensures
        match entry_step(LoadState { library: old(library)@, assets: old(assets)@ }, entry@) {
            Ok(st) => r is Ok && final(library)@ == st.library && final(assets)@ == st.assets,
            Err(e) => r == Err::<(), LoadError>(e),
        },
{
    let m = &entry.metadata;
    let ghost mv = m@;
    let ghost g = mv.print_group;
    let ghost st0 = LoadState { library: library@, assets: assets@ };
    let ghost gv = group_of(library@, g);
    let mut group: Library = match library.libraries.get(&m.print_group) {
        Some(l) => l.deep_copy(),
        None => Library::new(),
    };
    assert(group@ == gv);
    let aliases = alias_list(m);
    let card_id = match card_identity(&group, m, &aliases) {
        Ok(c) => c,
        Err(e) => {
            return Err(e);
        },
    };
    let fresh = faces_of(m);
    let mut card: CardMetadata = match group.cards.get(&card_id) {
        Some(existing) => {
            if !(str_eq(existing.title.title.as_str(), m.title.as_str()) && same_faces_exec(
                &existing.alternate_face_data,
                &fresh,
            )) {
                return Err(LoadError::ConflictsWithExistingCard);
            }
            existing.deep_copy()
        },
        None => CardMetadata {
            title: title(m.title.as_str()),
            alternate_face_data: fresh,
            id: card_id.deep_copy(),
            printings: KeySet::new(),
        },
    };
    let ghost cv = base_card(gv, card_id@, mv);
    assert(card@ == cv);
    let ghost pairs = dynamic_pairs(entry@);
    let ghost step = alias_stepper(card_id@, mv.printing_name);
    let ghost start = (cv.printings, gv.faces, st0.assets);
    assert(entry_step(st0, entry@) == match try_fold(pairs, start, step) {
        Err(e) => Err(e),
        Ok(after) => Ok(entry_result(st0, g, gv, card_id@, cv, after)),
    });
    let n: usize = if aliases.len() <= entry.images.len() {
        aliases.len()
    } else {
        entry.images.len()
    };
    assert(pairs.len() == n);
    let mut k: usize = 0;
    while k < n
        invariant
            k <= n,
            n == pairs.len(),
            n <= aliases@.len(),
            n <= entry.images@.len(),
            pairs == dynamic_pairs(entry@),
            mv == entry@.metadata,
            m@ == mv,
            st0 == (LoadState { library: old(library)@, assets: old(assets)@ }),
            aliases@.len() == aliases_of(mv).len(),
            forall|i: int| 0 <= i < aliases@.len() ==> (#[trigger] aliases@[i])@ == aliases_of(mv)[i],
            step == alias_stepper(card_id@, mv.printing_name),
            try_fold(pairs.subrange(0, k as int), start, step) == Ok::<_, LoadError>((card.printings@, group.faces@, assets@)),
            entry_step(st0, entry@) == match try_fold(pairs, start, step) {
                Err(e) => Err(e),
                Ok(after) => Ok(entry_result(st0, g, gv, card_id@, cv, after)),
            },
            card@.id == cv.id,
            card@.title == cv.title,
            card@.faces == cv.faces,
            group.cards@ == gv.cards,
            group.inserts@ == gv.inserts,
        decreases n - k,
    {
        proof {
            lemma_try_fold_next(pairs, start, step, k as int);
            assert(pairs[k as int] == (aliases@[k as int]@, entry.images[k as int].url@));
        }
        let alias = &aliases[k];
        let ghost old_printings = card.printings@;
        let ghost old_faces = group.faces@;
        let ghost old_assets = assets@;
        if assets.contains_key(alias) {
            proof {
                lemma_try_fold_err(pairs, start, step, k + 1);
            }
            return Err(LoadError::DuplicateDynamicAlias);
        }
        card.printings.insert(alias.deep_copy());
        group.faces.insert(
            alias.deep_copy(),
            PrintingMetadata { id: alias.deep_copy(), card_id: card_id.deep_copy(), printing_name: m.printing_name.clone() },
        );
        assets.insert(alias.deep_copy(), entry.images[k].url.clone());
        proof {
            let prev = (old_printings, old_faces, old_assets);
            assert(step(prev, pairs[k as int]) == alias_step(prev, pairs[k as int], card_id@, mv.printing_name));
            assert(!old_assets.contains_key(pairs[k as int].0));
            assert(card.printings@ == old_printings.insert(pairs[k as int].0));
            assert(group.faces@ == old_faces.insert(pairs[k as int].0, PrintingView { id: pairs[k as int].0, card_id: card_id@, printing_name: mv.printing_name }));
            assert(assets@ == old_assets.insert(pairs[k as int].0, pairs[k as int].1));
            assert(alias_step(prev, pairs[k as int], card_id@, mv.printing_name) == Ok::<_, LoadError>((card.printings@, group.faces@, assets@)));
        }
        k += 1;
    }
    proof {
        lemma_try_fold_all(pairs, start, step);
    }
    let ghost after = (card.printings@, group.faces@, assets@);
    group.cards.insert(card_id, card);
    library.libraries.insert(m.print_group.clone(), group);
    if !library.collection_names.contains_key(&m.print_group) {
        library.collection_names.insert(m.print_group.clone(), m.print_group.clone());
    }
    Ok(())
}

/// The state that loading leaves in use: the merged library, and the
/// images of the feed's aliases as published images.
pub open spec fn active_state_of(st: LoadState) -> ActiveStateView {
    ActiveStateView { library: st.library, published: PublishedView { card_faces: st.assets, inserts: Map::empty() } }
}

/// Merges the printings of a feed, in order, into a copy of the bundled
/// library, and collects the image of each alias; see `loaded`.
pub fn build_active_state(base: &MultiLibrary, printings: &[ProxyPrinting]) -> (r: Result<ActiveState, LoadError>)
    requires
        forall|i: int| 0 <= i < printings@.len() ==> (#[trigger] printings@[i]).metadata.faces.len() > 0,
    ensures
        match loaded(base@, proxy_printing_views(printings@)) {
            Ok(st) => r matches Ok(a) && a@ == active_state_of(st),
            Err(e) => r == Err::<ActiveState, LoadError>(e),
        },
{
    let ghost ps = proxy_printing_views(printings@);
    let ghost init = LoadState { library: base@, assets: Map::empty() };
    let mut library = base.deep_copy();
    let mut assets: AssocList<CardFacePrintingId, String> = AssocList::new();
    let mut i: usize = 0;
    while i < printings.len()
        invariant
            i <= printings.len(),
            ps == proxy_printing_views(printings@),
            init == (LoadState { library: base@, assets: Map::empty() }),
            forall|j: int| 0 <= j < printings@.len() ==> (#[trigger] printings@[j]).metadata.faces.len() > 0,
            try_fold(ps.subrange(0, i as int), init, entry_stepper()) == Ok::<_, LoadError>(
                LoadState { library: library@, assets: assets@ },
            ),
        decreases printings.len() - i,
    {
        proof {
            lemma_try_fold_next(ps, init, entry_stepper(), i as int);
            assert(printings@[i as int].metadata.faces.len() > 0);
        }
        let loaded_entry = load_entry(&mut library, &mut assets, &printings[i]);
        if let Err(e) = loaded_entry {
            proof {
                lemma_try_fold_err(ps, init, entry_stepper(), i + 1);
            }
            return Err(e);
        }
        i += 1;
    }
    proof {
        lemma_try_fold_all(ps, init, entry_stepper());
    }
    let published = PublishedAssetIndex::from_parts(assets, AssocList::new());
    Ok(ActiveState { library, published })
}

/// Validates a parsed feed (see `validate_proxy_index`) and, if it is valid,
/// merges it into a copy of the bundled library.  Loading always starts from
/// the bundled library, so aliases that the feed no longer has disappear
/// while bundled and local data survive.
pub fn load_proxy_index(base: &MultiLibrary, index: &ProxyIndex, asset_base: &str, unsigned_json: &[u8]) -> (r: Result<
    ActiveState,
    LoadError,
>)
    ensures
        match proxy_index_verdict(index@, asset_base@, unsigned_json@) {
            Err(e) => r == Err::<ActiveState, LoadError>(LoadError::Invalid(e)),
            Ok(()) => match loaded(base@, index@.printings) {
                Ok(st) => r matches Ok(a) && a@ == active_state_of(st),
                Err(e) => r == Err::<ActiveState, LoadError>(e),
            },
        },
{
    if let Err(e) = validate_proxy_index(index, asset_base, unsigned_json) {
        return Err(LoadError::Invalid(e));
    }
    proof {
        lemma_accepted_printings_have_faces(index@, asset_base@, unsigned_json@);
        assert forall|i: int| 0 <= i < index.printing@.len() implies (#[trigger] index.printing@[i]).metadata.faces.len() > 0 by {
            assert(index@.printings[i] == index.printing@[i]@);
        }
    }
    build_active_state(base, index.printing.as_slice())
}

/// The state in use after the card feed: the loaded state when the feed is
/// present, valid and merges; else the bundled library without published
/// images.
pub open spec fn feed_state(
    base: MultiLibraryView,
    feed: Option<ProxyIndexView>,
    asset_base: Seq<char>,
    unsigned_feed: Seq<u8>,
) -> ActiveStateView {
    let bundled = ActiveStateView {
        library: base,
        published: PublishedView { card_faces: Map::empty(), inserts: Map::empty() },
    };
    match feed {
        None => bundled,
        Some(index) => match proxy_index_verdict(index, asset_base, unsigned_feed) {
            Err(_) => bundled,
            Ok(()) => match loaded(base, index.printings) {
                Ok(st) => active_state_of(st),
                Err(_) => bundled,
            },
        },
    }
}

/// The state after the general catalogue: its images, overridden by those
/// already in use, when the catalogue is present and usable.
pub open spec fn with_catalog(st: ActiveStateView, catalog: Option<CatalogView>) -> ActiveStateView {
    match catalog {
        None => st,
        Some(c) => match published_index(c, st.library) {
            Err(_) => st,
            Ok(p) => ActiveStateView {
                library: st.library,
                published: PublishedView {
                    card_faces: p.card_faces.union_prefer_right(st.published.card_faces),
                    inserts: p.inserts.union_prefer_right(st.published.inserts),
                },
            },
        },
    }
}

/// The state after the local overlay, when there is one.
pub open spec fn with_overlay(st: ActiveStateView, overlay: Option<MultiLibraryView>) -> ActiveStateView {
    match overlay {
        None => st,
        Some(o) => ActiveStateView { library: overlaid(st.library, o), published: st.published },
    }
}

/// Assembles the state in use from the bundled library and whatever sources
/// were read: first the card feed, then the general catalogue's images (the
/// feed's image mappings win over them), then the local overlay.  A source
/// that is absent or refused leaves the state as it was; its error is handed
/// back.
pub fn assemble_active_state(
    base: &MultiLibrary,
    feed: Option<&ProxyIndex>,
    asset_base: &str,
    unsigned_feed: &[u8],
    catalog: Option<&PublishedAssetCatalog>,
    overlay: Option<MultiLibrary>,
) -> (r: (ActiveState, Option<LoadError>, Option<CatalogError>))
    ensures
        r.0@ == with_overlay(
            with_catalog(
                feed_state(base@, opt_index_view(feed), asset_base@, unsigned_feed@),
                opt_catalog_view(catalog),
            ),
            opt_library_view(overlay),
        ),
{
    let mut state = ActiveState { library: base.deep_copy(), published: PublishedAssetIndex::default() };
    let mut feed_error: Option<LoadError> = None;
    if let Some(index) = feed {
        match load_proxy_index(base, index, asset_base, unsigned_feed) {
            Ok(loaded_state) => {
                state = loaded_state;
            },
            Err(e) => {
                feed_error = Some(e);
            },
        }
    }
    let mut catalog_error: Option<CatalogError> = None;
    if let Some(c) = catalog {
        match published_asset_index(c, &state.library) {
            Ok(mut published) => {
                let ActiveState { library, published: feed_images } = state;
                published.extend(feed_images);
                state = ActiveState { library, published };
            },
            Err(e) => {
                catalog_error = Some(e);
            },
        }
    }
    if let Some(o) = overlay {
        state.library.merge_overlay(o);
    }
    (state, feed_error, catalog_error)
}

pub open spec fn opt_index_view(o: Option<&ProxyIndex>) -> Option<ProxyIndexView> {
    match o {
        Some(i) => Some(i@),
        None => None,
    }
}

pub open spec fn opt_catalog_view(o: Option<&PublishedAssetCatalog>) -> Option<CatalogView> {
    match o {
        Some(c) => Some(c@),
        None => None,
    }
}

pub open spec fn opt_library_view(o: Option<MultiLibrary>) -> Option<MultiLibraryView> {
    match o {
        Some(l) => Some(l@),
        None => None,
    }
}

} // verus!
