//! Card identities, per-language libraries, and image URL resolution.

use vstd::prelude::*;
use crate::assoc::{AssocList, DeepCopy, KeyEq, KeySet};
use crate::text::{decimal, decimal_string, seq_lt, str_lt, lemma_seq_lt_irreflexive, lemma_seq_lt_transitive, lemma_seq_lt_total};

verus! {

/// The identity of a card face printing, as a value.
pub ghost struct FaceKey {
    pub id: u32,
    pub face: Option<usize>,
    pub group: Seq<char>,
}

/// The identity of an insert, as a value.
pub ghost struct InsertKey {
    pub name: Seq<char>,
    pub group: Seq<char>,
}

/// One face (or variant) of one printing of a card in one print group.
#[derive(Debug, PartialEq, Eq, Hash)]
pub struct CardFacePrintingId {
    pub id: u32,
    pub face_or_variant_specifier: Option<usize>,
    pub print_group: String,
}

impl View for CardFacePrintingId {
    type V = FaceKey;

    open spec fn view(&self) -> FaceKey {
        FaceKey { id: self.id, face: self.face_or_variant_specifier, group: self.print_group@ }
    }
}

pub fn option_usize_eq(a: Option<usize>, b: Option<usize>) -> (r: bool)
    ensures
        r == (a == b),
{
    match (a, b) {
        (None, None) => true,
        (Some(x), Some(y)) => x == y,
        _ => false,
    }
}

impl KeyEq for CardFacePrintingId {
    fn key_eq(&self, other: &Self) -> (r: bool) {
        self.id == other.id && option_usize_eq(
            self.face_or_variant_specifier,
            other.face_or_variant_specifier,
        ) && self.print_group.key_eq(&other.print_group)
    }
}

impl DeepCopy for CardFacePrintingId {
    fn deep_copy(&self) -> (r: Self) {
        CardFacePrintingId {
            id: self.id,
            face_or_variant_specifier: self.face_or_variant_specifier,
            print_group: self.print_group.deep_copy(),
        }
    }
}

impl Clone for CardFacePrintingId {
    fn clone(&self) -> (r: Self)
        ensures
            r@ == self@,
    {
        self.deep_copy()
    }
}

/// `Option` order: `None` first, then by value.
pub open spec fn option_lt(a: Option<usize>, b: Option<usize>) -> bool {
    match (a, b) {
        (None, Some(_)) => true,
        (Some(x), Some(y)) => x < y,
        _ => false,
    }
}

/// The order of printings: by number, then face, then print group.
pub open spec fn face_key_lt(a: FaceKey, b: FaceKey) -> bool {
    ||| a.id < b.id
    ||| a.id == b.id && option_lt(a.face, b.face)
    ||| a.id == b.id && a.face == b.face && seq_lt(a.group, b.group)
}

pub proof fn lemma_face_key_lt_irreflexive(a: FaceKey)
    ensures
        !face_key_lt(a, a),
{
    lemma_seq_lt_irreflexive(a.group);
}

pub proof fn lemma_face_key_lt_transitive(a: FaceKey, b: FaceKey, c: FaceKey)
    requires
        face_key_lt(a, b),
        face_key_lt(b, c),
    ensures
        face_key_lt(a, c),
{
    if a.id == b.id && b.id == c.id && a.face == b.face && b.face == c.face {
        lemma_seq_lt_transitive(a.group, b.group, c.group);
    }
}

pub proof fn lemma_face_key_lt_total(a: FaceKey, b: FaceKey)
    requires
        a != b,
    ensures
        face_key_lt(a, b) || face_key_lt(b, a),
{
    if a.id == b.id && a.face == b.face {
        assert(a.group != b.group);
        lemma_seq_lt_total(a.group, b.group);
    }
}

impl CardFacePrintingId {
    /// `self < other` in the printing order.
    pub fn lt(&self, other: &Self) -> (r: bool)
        ensures
            r == face_key_lt(self@, other@),
    {
        if self.id != other.id {
            return self.id < other.id;
        }
        match (self.face_or_variant_specifier, other.face_or_variant_specifier) {
            (None, Some(_)) => true,
            (Some(_), None) => false,
            (Some(x), Some(y)) if x != y => x < y,
            _ => str_lt(self.print_group.as_str(), other.print_group.as_str()),
        }
    }
}

/// The printings of a card.
pub type PrintingSet = KeySet<CardFacePrintingId>;

/// `x` is the greatest member of `s` with `face` (any face when `face` is
/// `None`).
pub open spec fn greatest_with(s: Set<FaceKey>, face: Option<Option<usize>>, x: FaceKey) -> bool {
    &&& s.contains(x)
    &&& (face matches Some(f) ==> x.face == f)
    &&& forall|y: FaceKey|
        #![trigger s.contains(y)]
        s.contains(y) && (face matches Some(f) ==> y.face == f) ==> !face_key_lt(x, y)
}

pub proof fn lemma_greatest_unique(s: Set<FaceKey>, face: Option<Option<usize>>, x: FaceKey, y: FaceKey)
    requires
        greatest_with(s, face, x),
        greatest_with(s, face, y),
    ensures
        x == y,
{
    if x != y {
        lemma_face_key_lt_total(x, y);
    }
}

impl KeySet<CardFacePrintingId> {
    /// The greatest member with the given face (`any` ignores the face);
    /// `None` when there is no such member.
    fn greatest_where(&self, any: bool, face: Option<usize>) -> (r: Option<&CardFacePrintingId>)
        ensures
            match r {
                Some(x) => greatest_with(self@, if any { None } else { Some(face) }, x@),
                None => forall|y: FaceKey| #[trigger] self@.contains(y) ==> !any && y.face != face,
            },
    {
        let ghost filter: Option<Option<usize>> = if any { None } else { Some(face) };
        let n = self.len();
        let mut best: Option<&CardFacePrintingId> = None;
        let mut i: usize = 0;
        while i < n
            invariant
                n == self.listing().len(),
                i <= n,
                filter == (if any { None } else { Some(face) }),
                forall|j: int|
                    0 <= j < self.listing().len() ==> self@.contains(#[trigger] self.listing()[j]),
                forall|y: FaceKey| #[trigger] self@.contains(y) ==> exists|j: int|
                    0 <= j < self.listing().len() && self.listing()[j] == y,
                match best {
                    Some(x) => {
                        &&& self@.contains(x@)
                        &&& (any || x@.face == face)
                        &&& forall|j: int|
                            0 <= j < i && (any || (#[trigger] self.listing()[j]).face == face)
                                ==> !face_key_lt(x@, self.listing()[j])
                    },
                    None => forall|j: int|
                        0 <= j < i ==> !any && (#[trigger] self.listing()[j]).face != face,
                },
            decreases n - i,
        {
            let k = self.at(i);
            if any || option_usize_eq(k.face_or_variant_specifier, face) {
                match best {
                    None => {
                        best = Some(k);
                        proof {
                            lemma_face_key_lt_irreflexive(k@);
                        }
                    },
                    Some(b) => {
                        if b.lt(k) {
                            proof {
                                assert forall|j: int|
                                    0 <= j < i + 1 && (any || (#[trigger] self.listing()[j]).face
                                        == face) implies !face_key_lt(k@, self.listing()[j]) by {
                                    let y = self.listing()[j];
                                    if j < i {
                                        if face_key_lt(k@, y) {
                                            lemma_face_key_lt_transitive(b@, k@, y);
                                        }
                                    } else {
                                        lemma_face_key_lt_irreflexive(k@);
                                    }
                                }
                            }
                            best = Some(k);
                        } else {
                            proof {
                                assert forall|j: int|
                                    0 <= j < i + 1 && (any || (#[trigger] self.listing()[j]).face
                                        == face) implies !face_key_lt(b@, self.listing()[j]) by {
                                    if j == i {
                                        assert(self.listing()[j] == k@);
                                    }
                                }
                            }
                        }
                    },
                }
            }
            i += 1;
        }
        proof {
            match best {
                Some(x) => {
                    assert forall|y: FaceKey|
                        #![trigger self@.contains(y)]
                        self@.contains(y) && (filter matches Some(f) ==> y.face == f) implies !face_key_lt(x@, y) by {
                        let j = choose|j: int| 0 <= j < self.listing().len() && self.listing()[j] == y;
                    }
                },
                None => {
                    assert forall|y: FaceKey| #[trigger] self@.contains(y) implies !any && y.face != face by {
                        let j = choose|j: int| 0 <= j < self.listing().len() && self.listing()[j] == y;
                    }
                },
            }
        }
        best
    }

    /// The greatest member (`BTreeSet::last`).
    pub fn greatest(&self) -> (r: Option<&CardFacePrintingId>)
        ensures
            match r {
                Some(x) => greatest_with(self@, None, x@),
                None => self@ == Set::<FaceKey>::empty(),
            },
    {
        let r = self.greatest_where(true, None);
        if r.is_none() {
            assert(self@ =~= Set::<FaceKey>::empty());
        }
        r
    }

    /// The greatest member with face `face` (`iter().rev().find(..)`).
    pub fn greatest_with_face(&self, face: Option<usize>) -> (r: Option<&CardFacePrintingId>)
        ensures
            match r {
                Some(x) => greatest_with(self@, Some(face), x@),
                None => forall|y: FaceKey| #[trigger] self@.contains(y) ==> y.face != face,
            },
    {
        self.greatest_where(false, face)
    }

}

} // verus!

verus! {

/// Where the legacy card images are published.
pub const CARD_IMAGE_URL_ROOT: &'static str = "https://nro-public.s3.nl-ams.scw.cloud/nro/card-printings/v2/webp";

/// The identity of a card image, as a value.
pub ghost enum ImageKey {
    Face(FaceKey),
    Insert(InsertKey),
}

/// An insert (a rules or reference sheet) in one print group.
#[derive(Debug, PartialEq, Eq, Hash)]
pub struct InsertId {
    pub name: String,
    pub print_group: String,
}

impl View for InsertId {
    type V = InsertKey;

    open spec fn view(&self) -> InsertKey {
        InsertKey { name: self.name@, group: self.print_group@ }
    }
}

impl KeyEq for InsertId {
    fn key_eq(&self, other: &Self) -> (r: bool) {
        self.name.key_eq(&other.name) && self.print_group.key_eq(&other.print_group)
    }
}

impl DeepCopy for InsertId {
    fn deep_copy(&self) -> (r: Self) {
        InsertId { name: self.name.deep_copy(), print_group: self.print_group.deep_copy() }
    }
}

impl Clone for InsertId {
    fn clone(&self) -> (r: Self)
        ensures
            r@ == self@,
    {
        self.deep_copy()
    }
}

/// The identity of a card.
#[derive(Debug, PartialEq, Eq, Hash)]
pub struct CardId(pub String);

impl View for CardId {
    type V = Seq<char>;

    open spec fn view(&self) -> Seq<char> {
        self.0@
    }
}

impl KeyEq for CardId {
    fn key_eq(&self, other: &Self) -> (r: bool) {
        self.0.key_eq(&other.0)
    }
}

impl DeepCopy for CardId {
    fn deep_copy(&self) -> (r: Self) {
        CardId(self.0.deep_copy())
    }
}

impl Clone for CardId {
    fn clone(&self) -> (r: Self)
        ensures
            r@ == self@,
    {
        self.deep_copy()
    }
}

/// A card face printing or an insert, as something that has an image.
#[derive(Debug, PartialEq, Eq, Hash)]
pub enum CardImage {
    CardFacePrinting(CardFacePrintingId),
    Insert(InsertId),
}

impl View for CardImage {
    type V = ImageKey;

    open spec fn view(&self) -> ImageKey {
        match self {
            CardImage::CardFacePrinting(p) => ImageKey::Face(p@),
            CardImage::Insert(i) => ImageKey::Insert(i@),
        }
    }
}

impl DeepCopy for CardImage {
    fn deep_copy(&self) -> (r: Self) {
        match self {
            CardImage::CardFacePrinting(p) => CardImage::CardFacePrinting(p.deep_copy()),
            CardImage::Insert(i) => CardImage::Insert(i.deep_copy()),
        }
    }
}

impl Clone for CardImage {
    fn clone(&self) -> (r: Self)
        ensures
            r@ == self@,
    {
        self.deep_copy()
    }
}

/// `{root}/{group}/card/{id}[.{face}].webp`
pub open spec fn card_face_image_url(k: FaceKey) -> Seq<char> {
    CARD_IMAGE_URL_ROOT@ + "/"@ + k.group + "/card/"@ + decimal(k.id as nat) + (match k.face {
        Some(f) => "."@ + decimal(f as nat),
        None => Seq::empty(),
    }) + ".webp"@
}

/// `{root}/{group}/insert/{name}.webp`
pub open spec fn insert_image_url(k: InsertKey) -> Seq<char> {
    CARD_IMAGE_URL_ROOT@ + "/"@ + k.group + "/insert/"@ + k.name + ".webp"@
}

/// The image URL derived from an identity alone.
pub open spec fn legacy_image_url(k: ImageKey) -> Seq<char> {
    match k {
        ImageKey::Face(f) => card_face_image_url(f),
        ImageKey::Insert(i) => insert_image_url(i),
    }
}

impl CardFacePrintingId {
    pub fn image_url(&self) -> (r: String)
        ensures
            r@ == card_face_image_url(self@),
    {
        let mut s = String::from_str(CARD_IMAGE_URL_ROOT);
        s.append("/");
        s.append(self.print_group.as_str());
        s.append("/card/");
        let id = decimal_string(self.id as u64);
        s.append(id.as_str());
        let ghost before_face = s@;
        match self.face_or_variant_specifier {
            Some(face) => {
                s.append(".");
                let f = decimal_string(face as u64);
                s.append(f.as_str());
                assert(s@ =~= before_face + ("."@ + decimal(face as nat)));
            },
            None => {
                assert(s@ =~= before_face + Seq::<char>::empty());
            },
        }
        s.append(".webp");
        s
    }
}

impl InsertId {
    pub fn image_url(&self) -> (r: String)
        ensures
            r@ == insert_image_url(self@),
    {
        let mut s = String::from_str(CARD_IMAGE_URL_ROOT);
        s.append("/");
        s.append(self.print_group.as_str());
        s.append("/insert/");
        s.append(self.name.as_str());
        s.append(".webp");
        s
    }
}

impl CardImage {
    pub fn image_url(&self) -> (r: String)
        ensures
            r@ == legacy_image_url(self@),
    {
        match self {
            CardImage::CardFacePrinting(image) => image.image_url(),
            CardImage::Insert(insert) => insert.image_url(),
        }
    }
}

} // verus!

verus! {

/// A card title and its ASCII-only form.
#[derive(Debug, PartialEq, Eq, Hash)]
pub struct Title {
    /// The title of the card, possibly containing non-ASCII characters.
    pub title: String,
    /// The title of the card, reduced to ASCII characters.
    pub stripped_title: String,
}

pub ghost struct TitleView {
    pub title: Seq<char>,
    pub stripped: Seq<char>,
}

impl View for Title {
    type V = TitleView;

    open spec fn view(&self) -> TitleView {
        TitleView { title: self.title@, stripped: self.stripped_title@ }
    }
}

impl DeepCopy for Title {
    fn deep_copy(&self) -> (r: Self) {
        Title { title: self.title.deep_copy(), stripped_title: self.stripped_title.deep_copy() }
    }
}

impl Clone for Title {
    fn clone(&self) -> (r: Self)
        ensures
            r@ == self@,
    {
        self.deep_copy()
    }
}

/// The other faces a card has.
#[derive(Debug, PartialEq, Eq, Hash)]
pub enum AlternateFaceMetadata {
    /// The card has only a single face with no variants.
    Single,
    /// The card has multiple faces; the titles of those after the first.
    Multiple(Vec<Title>),
    /// The card has one face with this many variant forms.
    Variants(usize),
}

pub open spec fn title_views(titles: Seq<Title>) -> Seq<TitleView> {
    titles.map_values(|t: Title| t@)
}

pub ghost enum AltFacesView {
    Single,
    Multiple(Seq<TitleView>),
    Variants(usize),
}

impl View for AlternateFaceMetadata {
    type V = AltFacesView;

    open spec fn view(&self) -> AltFacesView {
        match self {
            AlternateFaceMetadata::Single => AltFacesView::Single,
            AlternateFaceMetadata::Multiple(titles) => AltFacesView::Multiple(
                title_views(titles@),
            ),
            AlternateFaceMetadata::Variants(n) => AltFacesView::Variants(*n),
        }
    }
}

impl DeepCopy for AlternateFaceMetadata {
    fn deep_copy(&self) -> (r: Self) {
        match self {
            AlternateFaceMetadata::Single => AlternateFaceMetadata::Single,
            AlternateFaceMetadata::Multiple(titles) => AlternateFaceMetadata::Multiple(
                crate::assoc::copy_vec(titles),
            ),
            AlternateFaceMetadata::Variants(n) => AlternateFaceMetadata::Variants(*n),
        }
    }
}

/// What the library knows of a card.
#[derive(Debug)]
pub struct CardMetadata {
    /// The title of the card.
    pub title: Title,
    /// The other faces the card has.
    pub alternate_face_data: AlternateFaceMetadata,
    /// The identity of the card.
    pub id: CardId,
    /// The card's printings.
    pub printings: PrintingSet,
}

pub ghost struct CardView {
    pub title: TitleView,
    pub faces: AltFacesView,
    pub id: Seq<char>,
    pub printings: Set<FaceKey>,
}

impl View for CardMetadata {
    type V = CardView;

    open spec fn view(&self) -> CardView {
        CardView {
            title: self.title@,
            faces: self.alternate_face_data@,
            id: self.id@,
            printings: self.printings@,
        }
    }
}

impl DeepCopy for CardMetadata {
    fn deep_copy(&self) -> (r: Self) {
        CardMetadata {
            title: self.title.deep_copy(),
            alternate_face_data: self.alternate_face_data.deep_copy(),
            id: self.id.deep_copy(),
            printings: self.printings.deep_copy(),
        }
    }
}

impl Clone for CardMetadata {
    fn clone(&self) -> (r: Self)
        ensures
            r@ == self@,
    {
        self.deep_copy()
    }
}

/// What the library knows of one face printing.
#[derive(Debug, PartialEq, Eq, Hash)]
pub struct PrintingMetadata {
    pub id: CardFacePrintingId,
    pub card_id: CardId,
    pub printing_name: String,
}

pub ghost struct PrintingView {
    pub id: FaceKey,
    pub card_id: Seq<char>,
    pub printing_name: Seq<char>,
}

impl View for PrintingMetadata {
    type V = PrintingView;

    open spec fn view(&self) -> PrintingView {
        PrintingView { id: self.id@, card_id: self.card_id@, printing_name: self.printing_name@ }
    }
}

impl DeepCopy for PrintingMetadata {
    fn deep_copy(&self) -> (r: Self) {
        PrintingMetadata {
            id: self.id.deep_copy(),
            card_id: self.card_id.deep_copy(),
            printing_name: self.printing_name.deep_copy(),
        }
    }
}

impl Clone for PrintingMetadata {
    fn clone(&self) -> (r: Self)
        ensures
            r@ == self@,
    {
        self.deep_copy()
    }
}

/// What the library knows of an insert.
#[derive(Debug)]
pub struct InsertMetadata {
    pub title: Title,
    pub id: InsertId,
    pub insert_groups: KeySet<String>,
}

pub ghost struct InsertView {
    pub title: TitleView,
    pub id: InsertKey,
    pub insert_groups: Set<Seq<char>>,
}

impl View for InsertMetadata {
    type V = InsertView;

    open spec fn view(&self) -> InsertView {
        InsertView { title: self.title@, id: self.id@, insert_groups: self.insert_groups@ }
    }
}

impl DeepCopy for InsertMetadata {
    fn deep_copy(&self) -> (r: Self) {
        InsertMetadata {
            title: self.title.deep_copy(),
            id: self.id.deep_copy(),
            insert_groups: self.insert_groups.deep_copy(),
        }
    }
}

impl Clone for InsertMetadata {
    fn clone(&self) -> (r: Self)
        ensures
            r@ == self@,
    {
        self.deep_copy()
    }
}

/// The cards, face printings and inserts of one print group.
#[derive(Debug)]
pub struct Library {
    pub cards: AssocList<CardId, CardMetadata>,
    pub faces: AssocList<CardFacePrintingId, PrintingMetadata>,
    pub inserts: AssocList<InsertId, InsertMetadata>,
}

pub ghost struct LibraryView {
    pub cards: Map<Seq<char>, CardView>,
    pub faces: Map<FaceKey, PrintingView>,
    pub inserts: Map<InsertKey, InsertView>,
}

impl View for Library {
    type V = LibraryView;

    open spec fn view(&self) -> LibraryView {
        LibraryView { cards: self.cards@, faces: self.faces@, inserts: self.inserts@ }
    }
}

impl DeepCopy for Library {
    fn deep_copy(&self) -> (r: Self) {
        Library {
            cards: self.cards.deep_copy(),
            faces: self.faces.deep_copy(),
            inserts: self.inserts.deep_copy(),
        }
    }
}

impl Clone for Library {
    fn clone(&self) -> (r: Self)
        ensures
            r@ == self@,
    {
        self.deep_copy()
    }
}

/// A card of `a` with the printings of `b` added.
pub open spec fn merge_card(a: CardView, b: CardView) -> CardView {
    CardView { printings: a.printings.union(b.printings), ..a }
}

/// Cards of both maps; where both have a card, `a`'s card gains `b`'s printings.
pub open spec fn merged_cards(a: Map<Seq<char>, CardView>, b: Map<Seq<char>, CardView>) -> Map<
    Seq<char>,
    CardView,
> {
    Map::new(
        |k: Seq<char>| a.contains_key(k) || b.contains_key(k),
        |k: Seq<char>|
            if a.contains_key(k) && b.contains_key(k) {
                merge_card(a[k], b[k])
            } else if a.contains_key(k) {
                a[k]
            } else {
                b[k]
            },
    )
}

/// `a` merged with `b`: cards are united, faces and inserts already in `a` stay.
pub open spec fn merged_library(a: LibraryView, b: LibraryView) -> LibraryView {
    LibraryView {
        cards: merged_cards(a.cards, b.cards),
        faces: b.faces.union_prefer_right(a.faces),
        inserts: b.inserts.union_prefer_right(a.inserts),
    }
}

impl Library {
    pub fn new() -> (r: Self)
        ensures
            r@.cards == Map::<Seq<char>, CardView>::empty(),
            r@.faces == Map::<FaceKey, PrintingView>::empty(),
            r@.inserts == Map::<InsertKey, InsertView>::empty(),
    {
        Library { cards: AssocList::new(), faces: AssocList::new(), inserts: AssocList::new() }
    }

    pub fn try_get_card(&self, id: &CardId) -> (r: Option<&CardMetadata>)
        ensures
            match r {
                Some(c) => self@.cards.contains_key(id@) && c@ == self@.cards[id@],
                None => !self@.cards.contains_key(id@),
            },
    {
        self.cards.get(id)
    }

    pub fn get_card(&self, id: &CardId) -> (r: &CardMetadata)
        requires
            self@.cards.contains_key(id@),
        ensures
            r@ == self@.cards[id@],
    {
        self.cards.get(id).unwrap()
    }

    pub fn get_face_card(&self, id: &CardFacePrintingId) -> (r: &CardMetadata)
        requires
            self@.faces.contains_key(id@),
            self@.cards.contains_key(self@.faces[id@].card_id),
        ensures
            r@ == self@.cards[self@.faces[id@].card_id],
    {
        let card = &self.faces.get(id).unwrap().card_id;
        self.cards.get(card).unwrap()
    }

    pub fn try_get_face_card(&self, id: &CardFacePrintingId) -> (r: Option<&CardMetadata>)
        ensures
            match r {
                Some(c) => {
                    &&& self@.faces.contains_key(id@)
                    &&& self@.cards.contains_key(self@.faces[id@].card_id)
                    &&& c@ == self@.cards[self@.faces[id@].card_id]
                },
                None => !self@.faces.contains_key(id@) || !self@.cards.contains_key(
                    self@.faces[id@].card_id,
                ),
            },
    {
        match self.faces.get(id) {
            Some(printing) => self.cards.get(&printing.card_id),
            None => None,
        }
    }

    pub fn get_insert(&self, id: &InsertId) -> (r: &InsertMetadata)
        requires
            self@.inserts.contains_key(id@),
        ensures
            r@ == self@.inserts[id@],
    {
        self.inserts.get(id).unwrap()
    }

    /// Adds `other`'s cards, faces and inserts; a card present in both gains
    /// `other`'s printings, and faces and inserts already here are kept.
    pub fn merge(&mut self, other: &Library)
        ensures
            final(self)@ == merged_library(old(self)@, other@),
    {
        let ghost a = self@;
        let ghost b = other@;
        proof {
            use_type_invariant(&other.cards);
            use_type_invariant(&other.faces);
            use_type_invariant(&other.inserts);
            other.cards.lemma_keys();
            other.faces.lemma_keys();
            other.inserts.lemma_keys();
        }
        let n = other.cards.len();
        let mut i: usize = 0;
        while i < n
            invariant
                n == other.cards.key_seq().len(),
                i <= n,
                other@ == b,
                other.cards.key_seq().no_duplicates(),
                forall|j: int| 0 <= j < n ==> b.cards.contains_key(#[trigger] other.cards.key_seq()[j]),
                self@.faces == a.faces,
                self@.inserts == a.inserts,
                self@.cards == merged_cards(
                    a.cards,
                    b.cards.restrict(other.cards.key_seq().subrange(0, i as int).to_set()),
                ),
            decreases n - i,
        {
            let k = other.cards.key_at(i);
            let meta = other.cards.value_at(i);
            let ghost done = other.cards.key_seq().subrange(0, i as int).to_set();
            let ghost done2 = other.cards.key_seq().subrange(0, i + 1).to_set();
            let ghost cur = self@.cards;
            proof {
                let pre = other.cards.key_seq().subrange(0, i as int);
                Seq::lemma_to_set_insert_commutes(pre, k@);
                assert(pre + seq![k@] =~= other.cards.key_seq().subrange(0, i + 1));
                assert(!done.contains(k@)) by {
                    if done.contains(k@) {
                        let j = choose|j: int| 0 <= j < pre.len() && pre[j] == k@;
                        assert(other.cards.key_seq()[j] == other.cards.key_seq()[i as int]);
                    }
                }
                assert(cur.contains_key(k@) == a.cards.contains_key(k@));
            }
            match self.cards.position(k) {
                Some(j) => {
                    proof {
                        use_type_invariant(&self.cards);
                        self.cards.lemma_keys();
                        assert(cur.contains_key(k@));
                        assert(cur[k@] == a.cards[k@]);
                    }
                    let mut merged = self.cards.value_at(j).deep_copy();
                    merged.printings.extend(&meta.printings);
                    assert(merged@ == merge_card(a.cards[k@], b.cards[k@]));
                    self.cards.set_value_at(j, merged);
                    proof {
                        assert(self@.cards =~= merged_cards(a.cards, b.cards.restrict(done2)));
                    }
                },
                None => {
                    self.cards.insert(k.deep_copy(), meta.deep_copy());
                    proof {
                        assert(self@.cards =~= merged_cards(a.cards, b.cards.restrict(done2)));
                    }
                },
            }
            i += 1;
        }
        proof {
            assert(other.cards.key_seq().subrange(0, n as int) =~= other.cards.key_seq());
            assert(b.cards.restrict(other.cards.key_seq().to_set()) =~= b.cards);
        }
        let n = other.faces.len();
        let mut i: usize = 0;
        while i < n
            invariant
                n == other.faces.key_seq().len(),
                i <= n,
                other@ == b,
                other.faces.key_seq().no_duplicates(),
                forall|j: int| 0 <= j < n ==> b.faces.contains_key(#[trigger] other.faces.key_seq()[j]),
                self@.cards == merged_cards(a.cards, b.cards),
                self@.inserts == a.inserts,
                self@.faces == b.faces.restrict(
                    other.faces.key_seq().subrange(0, i as int).to_set(),
                ).union_prefer_right(a.faces),
            decreases n - i,
        {
            let k = other.faces.key_at(i);
            let ghost done2 = other.faces.key_seq().subrange(0, i + 1).to_set();
            proof {
                let pre = other.faces.key_seq().subrange(0, i as int);
                Seq::lemma_to_set_insert_commutes(pre, k@);
                assert(pre + seq![k@] =~= other.faces.key_seq().subrange(0, i + 1));
            }
            if !self.faces.contains_key(k) {
                self.faces.insert(k.deep_copy(), other.faces.value_at(i).deep_copy());
            }
            proof {
                assert(self@.faces =~= b.faces.restrict(done2).union_prefer_right(a.faces));
            }
            i += 1;
        }
        proof {
            assert(other.faces.key_seq().subrange(0, n as int) =~= other.faces.key_seq());
            assert(b.faces.restrict(other.faces.key_seq().to_set()) =~= b.faces);
        }
        let n = other.inserts.len();
        let mut i: usize = 0;
        while i < n
            invariant
                n == other.inserts.key_seq().len(),
                i <= n,
                other@ == b,
                other.inserts.key_seq().no_duplicates(),
                forall|j: int| 0 <= j < n ==> b.inserts.contains_key(#[trigger] other.inserts.key_seq()[j]),
                self@.cards == merged_cards(a.cards, b.cards),
                self@.faces == b.faces.union_prefer_right(a.faces),
                self@.inserts == b.inserts.restrict(
                    other.inserts.key_seq().subrange(0, i as int).to_set(),
                ).union_prefer_right(a.inserts),
            decreases n - i,
        {
            let k = other.inserts.key_at(i);
            let ghost done2 = other.inserts.key_seq().subrange(0, i + 1).to_set();
            proof {
                let pre = other.inserts.key_seq().subrange(0, i as int);
                Seq::lemma_to_set_insert_commutes(pre, k@);
                assert(pre + seq![k@] =~= other.inserts.key_seq().subrange(0, i + 1));
            }
            if !self.inserts.contains_key(k) {
                self.inserts.insert(k.deep_copy(), other.inserts.value_at(i).deep_copy());
            }
            proof {
                assert(self@.inserts =~= b.inserts.restrict(done2).union_prefer_right(a.inserts));
            }
            i += 1;
        }
        proof {
            assert(other.inserts.key_seq().subrange(0, n as int) =~= other.inserts.key_seq());
            assert(b.inserts.restrict(other.inserts.key_seq().to_set()) =~= b.inserts);
        }
    }
}

} // verus!

verus! {

/// A locally supplied image that replaces the published one of a printing.
#[derive(Debug, PartialEq, Eq, Hash)]
pub struct LocalImageOverride {
    pub id: u32,
    pub face_or_variant_specifier: Option<usize>,
    pub print_group: String,
    pub url: String,
}

pub ghost struct LocalImageView {
    pub key: FaceKey,
    pub url: Seq<char>,
}

impl View for LocalImageOverride {
    type V = LocalImageView;

    open spec fn view(&self) -> LocalImageView {
        LocalImageView {
            key: FaceKey {
                id: self.id,
                face: self.face_or_variant_specifier,
                group: self.print_group@,
            },
            url: self.url@,
        }
    }
}

impl DeepCopy for LocalImageOverride {
    fn deep_copy(&self) -> (r: Self) {
        LocalImageOverride {
            id: self.id,
            face_or_variant_specifier: self.face_or_variant_specifier,
            print_group: self.print_group.deep_copy(),
            url: self.url.deep_copy(),
        }
    }
}

impl Clone for LocalImageOverride {
    fn clone(&self) -> (r: Self)
        ensures
            r@ == self@,
    {
        self.deep_copy()
    }
}

impl LocalImageOverride {
    /// Whether this override is for `printing`.
    pub fn is_for(&self, printing: &CardFacePrintingId) -> (r: bool)
        ensures
            r == (self@.key == printing@),
    {
        self.id == printing.id && self.print_group.key_eq(&printing.print_group)
            && option_usize_eq(self.face_or_variant_specifier, printing.face_or_variant_specifier)
    }
}

/// The URL of the last override for `k`, if any.
pub open spec fn last_local_image(images: Seq<LocalImageView>, k: FaceKey) -> Option<Seq<char>>
    decreases images.len(),
{
    if images.len() == 0 {
        None
    } else if images.last().key == k {
        Some(images.last().url)
    } else {
        last_local_image(images.drop_last(), k)
    }
}

/// `images` without those for `added`'s printing, then `added`.
pub open spec fn with_local_image(images: Seq<LocalImageView>, added: LocalImageView) -> Seq<
    LocalImageView,
> {
    images.filter(|e: LocalImageView| e.key != added.key).push(added)
}

/// `base` with each of `added` applied in order by `with_local_image`.
pub open spec fn overlay_local_images(base: Seq<LocalImageView>, added: Seq<LocalImageView>) -> Seq<
    LocalImageView,
>
    decreases added.len(),
{
    if added.len() == 0 {
        base
    } else {
        with_local_image(overlay_local_images(base, added.drop_last()), added.last())
    }
}

/// Every print group's library, with collection names, NetrunnerDB number
/// remappings and local image overrides.
#[derive(Debug)]
pub struct MultiLibrary {
    pub libraries: AssocList<String, Library>,
    pub collection_names: AssocList<String, String>,
    pub nrdb_remap: AssocList<u32, u32>,
    pub local_images: Vec<LocalImageOverride>,
}

pub ghost struct MultiLibraryView {
    pub libraries: Map<Seq<char>, LibraryView>,
    pub collection_names: Map<Seq<char>, Seq<char>>,
    pub nrdb_remap: Map<u32, u32>,
    pub local_images: Seq<LocalImageView>,
}

impl View for MultiLibrary {
    type V = MultiLibraryView;

    open spec fn view(&self) -> MultiLibraryView {
        MultiLibraryView {
            libraries: self.libraries@,
            collection_names: self.collection_names@,
            nrdb_remap: self.nrdb_remap@,
            local_images: self.local_images@.map_values(|e: LocalImageOverride| e@),
        }
    }
}

impl DeepCopy for MultiLibrary {
    fn deep_copy(&self) -> (r: Self) {
        let images = crate::assoc::copy_vec(&self.local_images);
        let r = MultiLibrary {
            libraries: self.libraries.deep_copy(),
            collection_names: self.collection_names.deep_copy(),
            nrdb_remap: self.nrdb_remap.deep_copy(),
            local_images: images,
        };
        assert(r@.local_images =~= self@.local_images);
        r
    }
}

impl Clone for MultiLibrary {
    fn clone(&self) -> (r: Self)
        ensures
            r@ == self@,
    {
        self.deep_copy()
    }
}

/// Libraries of both; a group in both is merged with `merged_library`.
pub open spec fn merged_groups(a: Map<Seq<char>, LibraryView>, b: Map<Seq<char>, LibraryView>) -> Map<
    Seq<char>,
    LibraryView,
> {
    Map::new(
        |g: Seq<char>| a.contains_key(g) || b.contains_key(g),
        |g: Seq<char>|
            if a.contains_key(g) && b.contains_key(g) {
                merged_library(a[g], b[g])
            } else if a.contains_key(g) {
                a[g]
            } else {
                b[g]
            },
    )
}

/// `a` with the overlay `b` applied.
pub open spec fn overlaid(a: MultiLibraryView, b: MultiLibraryView) -> MultiLibraryView {
    MultiLibraryView {
        libraries: merged_groups(a.libraries, b.libraries),
        collection_names: a.collection_names.union_prefer_right(b.collection_names),
        nrdb_remap: a.nrdb_remap.union_prefer_right(b.nrdb_remap),
        local_images: overlay_local_images(a.local_images, b.local_images),
    }
}

impl MultiLibrary {
    pub fn new() -> (r: Self)
        ensures
            r@.libraries == Map::<Seq<char>, LibraryView>::empty(),
            r@.collection_names == Map::<Seq<char>, Seq<char>>::empty(),
            r@.nrdb_remap == Map::<u32, u32>::empty(),
            r@.local_images == Seq::<LocalImageView>::empty(),
    {
        let r = MultiLibrary {
            libraries: AssocList::new(),
            collection_names: AssocList::new(),
            nrdb_remap: AssocList::new(),
            local_images: Vec::new(),
        };
        assert(r@.local_images =~= Seq::<LocalImageView>::empty());
        r
    }

    /// The URL of the last local override for `printing`.
    pub fn local_image_url(&self, printing: &CardFacePrintingId) -> (r: Option<&str>)
        ensures
            match r {
                Some(u) => last_local_image(self@.local_images, printing@) == Some(u@),
                None => last_local_image(self@.local_images, printing@) is None,
            },
    {
        let ghost images = self@.local_images;
        let mut i: usize = self.local_images.len();
        assert(images.subrange(0, i as int) =~= images);
        while i > 0
            invariant
                i <= self.local_images.len(),
                images == self@.local_images,
                last_local_image(images, printing@) == last_local_image(
                    images.subrange(0, i as int),
                    printing@,
                ),
            decreases i,
        {
            let image = &self.local_images[i - 1];
            let ghost sub = images.subrange(0, i as int);
            assert(sub.last() == image@);
            assert(sub.drop_last() =~= images.subrange(0, i - 1));
            if image.is_for(printing) {
                return Some(image.url.as_str());
            }
            i -= 1;
        }
        None
    }

    /// Applies `overlay`: its groups are added or merged into existing ones,
    /// its collection names and remappings replace existing ones, and each of
    /// its local images replaces any earlier one for the same printing.
    pub fn merge_overlay(&mut self, overlay: MultiLibrary)
        ensures
            final(self)@ == overlaid(old(self)@, overlay@),
    {
        let ghost a = self@;
        let ghost b = overlay@;
        proof {
            use_type_invariant(&overlay.libraries);
            use_type_invariant(&overlay.collection_names);
            use_type_invariant(&overlay.nrdb_remap);
            overlay.libraries.lemma_keys();
            overlay.collection_names.lemma_keys();
            overlay.nrdb_remap.lemma_keys();
        }
        let n = overlay.libraries.len();
        let mut i: usize = 0;
        while i < n
            invariant
                n == overlay.libraries.key_seq().len(),
                i <= n,
                overlay@ == b,
                overlay.libraries.key_seq().no_duplicates(),
                forall|j: int|
                    0 <= j < n ==> b.libraries.contains_key(#[trigger] overlay.libraries.key_seq()[j]),
                self@.collection_names == a.collection_names,
                self@.nrdb_remap == a.nrdb_remap,
                self@.local_images == a.local_images,
                self@.libraries == merged_groups(
                    a.libraries,
                    b.libraries.restrict(overlay.libraries.key_seq().subrange(0, i as int).to_set()),
                ),
            decreases n - i,
        {
            let g = overlay.libraries.key_at(i);
            let lib = overlay.libraries.value_at(i);
            let ghost done = overlay.libraries.key_seq().subrange(0, i as int).to_set();
            let ghost done2 = overlay.libraries.key_seq().subrange(0, i + 1).to_set();
            let ghost cur = self@.libraries;
            proof {
                let pre = overlay.libraries.key_seq().subrange(0, i as int);
                Seq::lemma_to_set_insert_commutes(pre, g@);
                assert(pre + seq![g@] =~= overlay.libraries.key_seq().subrange(0, i + 1));
                assert(!done.contains(g@)) by {
                    if done.contains(g@) {
                        let j = choose|j: int| 0 <= j < pre.len() && pre[j] == g@;
                        assert(overlay.libraries.key_seq()[j] == overlay.libraries.key_seq()[i as int]);
                    }
                }
                assert(cur.contains_key(g@) == a.libraries.contains_key(g@));
            }
            match self.libraries.position(g) {
                Some(j) => {
                    proof {
                        use_type_invariant(&self.libraries);
                        self.libraries.lemma_keys();
                        assert(cur.contains_key(g@));
                        assert(cur[g@] == a.libraries[g@]);
                    }
                    let mut merged = self.libraries.value_at(j).deep_copy();
                    merged.merge(lib);
                    self.libraries.set_value_at(j, merged);
                    proof {
                        assert(self@.libraries =~= merged_groups(a.libraries, b.libraries.restrict(done2)));
                    }
                },
                None => {
                    self.libraries.insert(g.deep_copy(), lib.deep_copy());
                    proof {
                        assert(self@.libraries =~= merged_groups(a.libraries, b.libraries.restrict(done2)));
                    }
                },
            }
            i += 1;
        }
        proof {
            assert(overlay.libraries.key_seq().subrange(0, n as int) =~= overlay.libraries.key_seq());
            assert(b.libraries.restrict(overlay.libraries.key_seq().to_set()) =~= b.libraries);
        }
        let n = overlay.collection_names.len();
        let mut i: usize = 0;
        while i < n
            invariant
                n == overlay.collection_names.key_seq().len(),
                i <= n,
                overlay@ == b,
                forall|j: int|
                    0 <= j < n ==> b.collection_names.contains_key(#[trigger] overlay.collection_names.key_seq()[j]),
                self@.libraries == merged_groups(a.libraries, b.libraries),
                self@.nrdb_remap == a.nrdb_remap,
                self@.local_images == a.local_images,
                self@.collection_names == a.collection_names.union_prefer_right(
                    b.collection_names.restrict(
                        overlay.collection_names.key_seq().subrange(0, i as int).to_set(),
                    ),
                ),
            decreases n - i,
        {
            let k = overlay.collection_names.key_at(i).deep_copy();
            let v = overlay.collection_names.value_at(i).deep_copy();
            proof {
                let pre = overlay.collection_names.key_seq().subrange(0, i as int);
                Seq::lemma_to_set_insert_commutes(pre, k@);
                assert(pre + seq![k@] =~= overlay.collection_names.key_seq().subrange(0, i + 1));
            }
            self.collection_names.insert(k, v);
            proof {
                assert(self@.collection_names =~= a.collection_names.union_prefer_right(
                    b.collection_names.restrict(
                        overlay.collection_names.key_seq().subrange(0, i + 1).to_set(),
                    ),
                ));
            }
            i += 1;
        }
        proof {
            assert(overlay.collection_names.key_seq().subrange(0, n as int) =~= overlay.collection_names.key_seq());
            assert(b.collection_names.restrict(overlay.collection_names.key_seq().to_set()) =~= b.collection_names);
        }
        let n = overlay.nrdb_remap.len();
        let mut i: usize = 0;
        while i < n
            invariant
                n == overlay.nrdb_remap.key_seq().len(),
                i <= n,
                overlay@ == b,
                forall|j: int|
                    0 <= j < n ==> b.nrdb_remap.contains_key(#[trigger] overlay.nrdb_remap.key_seq()[j]),
                self@.libraries == merged_groups(a.libraries, b.libraries),
                self@.collection_names == a.collection_names.union_prefer_right(b.collection_names),
                self@.local_images == a.local_images,
                self@.nrdb_remap == a.nrdb_remap.union_prefer_right(
                    b.nrdb_remap.restrict(overlay.nrdb_remap.key_seq().subrange(0, i as int).to_set()),
                ),
            decreases n - i,
        {
            let k = *overlay.nrdb_remap.key_at(i);
            let v = *overlay.nrdb_remap.value_at(i);
            proof {
                let pre = overlay.nrdb_remap.key_seq().subrange(0, i as int);
                Seq::lemma_to_set_insert_commutes(pre, k);
                assert(pre + seq![k] =~= overlay.nrdb_remap.key_seq().subrange(0, i + 1));
            }
            self.nrdb_remap.insert(k, v);
            proof {
                assert(self@.nrdb_remap =~= a.nrdb_remap.union_prefer_right(
                    b.nrdb_remap.restrict(overlay.nrdb_remap.key_seq().subrange(0, i + 1).to_set()),
                ));
            }
            i += 1;
        }
        proof {
            assert(overlay.nrdb_remap.key_seq().subrange(0, n as int) =~= overlay.nrdb_remap.key_seq());
            assert(b.nrdb_remap.restrict(overlay.nrdb_remap.key_seq().to_set()) =~= b.nrdb_remap);
        }
        let n = overlay.local_images.len();
        let mut i: usize = 0;
        while i < n
            invariant
                n == overlay.local_images.len(),
                i <= n,
                overlay@ == b,
                self@.libraries == merged_groups(a.libraries, b.libraries),
                self@.collection_names == a.collection_names.union_prefer_right(b.collection_names),
                self@.nrdb_remap == a.nrdb_remap.union_prefer_right(b.nrdb_remap),
                self@.local_images == overlay_local_images(
                    a.local_images,
                    b.local_images.subrange(0, i as int),
                ),
            decreases n - i,
        {
            let image = &overlay.local_images[i];
            let ghost before = self@.local_images;
            let mut kept: Vec<LocalImageOverride> = Vec::new();
            let m = self.local_images.len();
            let mut j: usize = 0;
            while j < m
                invariant
                    m == self.local_images.len(),
                    j <= m,
                    before == self@.local_images,
                    kept@.map_values(|e: LocalImageOverride| e@) == before.subrange(0, j as int).filter(
                        |e: LocalImageView| e.key != image@.key,
                    ),
                decreases m - j,
            {
                let existing = &self.local_images[j];
                let ghost sub = before.subrange(0, j + 1);
                assert(sub.drop_last() =~= before.subrange(0, j as int));
                assert(sub.last() == existing@);
                reveal_with_fuel(Seq::<_>::filter, 1);
                if existing.id != image.id || !existing.print_group.key_eq(&image.print_group)
                    || !option_usize_eq(
                    existing.face_or_variant_specifier,
                    image.face_or_variant_specifier,
                ) {
                    kept.push(existing.deep_copy());
                }
                assert(kept@.map_values(|e: LocalImageOverride| e@) =~= sub.filter(
                    |e: LocalImageView| e.key != image@.key,
                ));
                j += 1;
            }
            kept.push(image.deep_copy());
            self.local_images = kept;
            proof {
                assert(before.subrange(0, m as int) =~= before);
                let added = b.local_images.subrange(0, i + 1);
                assert(added.drop_last() =~= b.local_images.subrange(0, i as int));
                assert(added.last() == image@);
                assert(self@.local_images =~= overlay_local_images(a.local_images, added));
            }
            i += 1;
        }
        proof {
            assert(b.local_images.subrange(0, n as int) =~= b.local_images);
        }
    }
}

} // verus!

verus! {

/// Image URLs published for printings and inserts.
#[derive(Debug)]
pub struct PublishedAssetIndex {
    card_faces: AssocList<CardFacePrintingId, String>,
    inserts: AssocList<InsertId, String>,
}

pub ghost struct PublishedView {
    pub card_faces: Map<FaceKey, Seq<char>>,
    pub inserts: Map<InsertKey, Seq<char>>,
}

impl View for PublishedAssetIndex {
    type V = PublishedView;

    closed spec fn view(&self) -> PublishedView {
        PublishedView { card_faces: self.card_faces@, inserts: self.inserts@ }
    }
}

impl DeepCopy for PublishedAssetIndex {
    fn deep_copy(&self) -> (r: Self) {
        PublishedAssetIndex {
            card_faces: self.card_faces.deep_copy(),
            inserts: self.inserts.deep_copy(),
        }
    }
}

impl Clone for PublishedAssetIndex {
    fn clone(&self) -> (r: Self)
        ensures
            r@ == self@,
    {
        self.deep_copy()
    }
}

impl Default for PublishedAssetIndex {
    fn default() -> (r: Self)
        ensures
            r@.card_faces == Map::<FaceKey, Seq<char>>::empty(),
            r@.inserts == Map::<InsertKey, Seq<char>>::empty(),
    {
        PublishedAssetIndex { card_faces: AssocList::new(), inserts: AssocList::new() }
    }
}

/// The published URL for an image, if any.
pub open spec fn published_url(p: PublishedView, image: ImageKey) -> Option<Seq<char>> {
    match image {
        ImageKey::Face(k) => if p.card_faces.contains_key(k) {
            Some(p.card_faces[k])
        } else {
            None
        },
        ImageKey::Insert(k) => if p.inserts.contains_key(k) {
            Some(p.inserts[k])
        } else {
            None
        },
    }
}

impl PublishedAssetIndex {
    /// An index with exactly these image maps.
    pub fn from_parts(
        card_faces: AssocList<CardFacePrintingId, String>,
        inserts: AssocList<InsertId, String>,
    ) -> (r: Self)
        ensures
            r@.card_faces == card_faces@,
            r@.inserts == inserts@,
    {
        PublishedAssetIndex { card_faces, inserts }
    }

    /// Adds `overrides`; where both have an image, the override wins.
    pub fn extend(&mut self, overrides: Self)
        ensures
            final(self)@.card_faces == old(self)@.card_faces.union_prefer_right(overrides@.card_faces),
            final(self)@.inserts == old(self)@.inserts.union_prefer_right(overrides@.inserts),
    {
        let ghost a = self@;
        proof {
            use_type_invariant(&overrides.card_faces);
            use_type_invariant(&overrides.inserts);
            overrides.card_faces.lemma_keys();
            overrides.inserts.lemma_keys();
        }
        let n = overrides.card_faces.len();
        let mut i: usize = 0;
        while i < n
            invariant
                n == overrides.card_faces.key_seq().len(),
                i <= n,
                forall|j: int|
                    0 <= j < n ==> overrides@.card_faces.contains_key(#[trigger] overrides.card_faces.key_seq()[j]),
                self@.inserts == a.inserts,
                self@.card_faces == a.card_faces.union_prefer_right(
                    overrides@.card_faces.restrict(overrides.card_faces.key_seq().subrange(0, i as int).to_set()),
                ),
            decreases n - i,
        {
            let k = overrides.card_faces.key_at(i).deep_copy();
            let v = overrides.card_faces.value_at(i).deep_copy();
            proof {
                let pre = overrides.card_faces.key_seq().subrange(0, i as int);
                Seq::lemma_to_set_insert_commutes(pre, k@);
                assert(pre + seq![k@] =~= overrides.card_faces.key_seq().subrange(0, i + 1));
            }
            self.card_faces.insert(k, v);
            proof {
                assert(self@.card_faces =~= a.card_faces.union_prefer_right(
                    overrides@.card_faces.restrict(overrides.card_faces.key_seq().subrange(0, i + 1).to_set()),
                ));
            }
            i += 1;
        }
        proof {
            assert(overrides.card_faces.key_seq().subrange(0, n as int) =~= overrides.card_faces.key_seq());
            assert(overrides@.card_faces.restrict(overrides.card_faces.key_seq().to_set()) =~= overrides@.card_faces);
        }
        let n = overrides.inserts.len();
        let mut i: usize = 0;
        while i < n
            invariant
                n == overrides.inserts.key_seq().len(),
                i <= n,
                forall|j: int|
                    0 <= j < n ==> overrides@.inserts.contains_key(#[trigger] overrides.inserts.key_seq()[j]),
                self@.card_faces == a.card_faces.union_prefer_right(overrides@.card_faces),
                self@.inserts == a.inserts.union_prefer_right(
                    overrides@.inserts.restrict(overrides.inserts.key_seq().subrange(0, i as int).to_set()),
                ),
            decreases n - i,
        {
            let k = overrides.inserts.key_at(i).deep_copy();
            let v = overrides.inserts.value_at(i).deep_copy();
            proof {
                let pre = overrides.inserts.key_seq().subrange(0, i as int);
                Seq::lemma_to_set_insert_commutes(pre, k@);
                assert(pre + seq![k@] =~= overrides.inserts.key_seq().subrange(0, i + 1));
            }
            self.inserts.insert(k, v);
            proof {
                assert(self@.inserts =~= a.inserts.union_prefer_right(
                    overrides@.inserts.restrict(overrides.inserts.key_seq().subrange(0, i + 1).to_set()),
                ));
            }
            i += 1;
        }
        proof {
            assert(overrides.inserts.key_seq().subrange(0, n as int) =~= overrides.inserts.key_seq());
            assert(overrides@.inserts.restrict(overrides.inserts.key_seq().to_set()) =~= overrides@.inserts);
        }
    }

    /// Whether the index has no image at all, that is whether both of its
    /// (finite) maps hold nothing.
    pub fn is_empty(&self) -> (r: bool)
        ensures
            r == (self@.card_faces == Map::<FaceKey, Seq<char>>::empty()
                && self@.inserts == Map::<InsertKey, Seq<char>>::empty()),
            r == (self@.card_faces.len() == 0 && self@.inserts.len() == 0),
            self@.card_faces.dom().finite(),
            self@.inserts.dom().finite(),
    {
        let a = self.card_faces.len();
        let b = self.inserts.len();
        proof {
            use_type_invariant(&self.card_faces);
            use_type_invariant(&self.inserts);
            self.card_faces.lemma_keys();
            self.inserts.lemma_keys();
            if a == 0 {
                assert(self@.card_faces.dom() =~= Set::<FaceKey>::empty());
                assert(self@.card_faces =~= Map::<FaceKey, Seq<char>>::empty());
            }
            if b == 0 {
                assert(self@.inserts.dom() =~= Set::<InsertKey>::empty());
                assert(self@.inserts =~= Map::<InsertKey, Seq<char>>::empty());
            }
        }
        a == 0 && b == 0
    }

    /// How many printings have a published image.
    pub fn card_face_count(&self) -> (r: usize)
        ensures
            r == self@.card_faces.len(),
            self@.card_faces.dom().finite(),
    {
        self.card_faces.len()
    }

    /// How many inserts have a published image.
    pub fn insert_count(&self) -> (r: usize)
        ensures
            r == self@.inserts.len(),
            self@.inserts.dom().finite(),
    {
        self.inserts.len()
    }

    pub fn image_url(&self, image: &CardImage) -> (r: Option<&str>)
        ensures
            match r {
                Some(u) => published_url(self@, image@) == Some(u@),
                None => published_url(self@, image@) is None,
            },
    {
        match image {
            CardImage::CardFacePrinting(printing) => match self.card_faces.get(printing) {
                Some(u) => Some(u.as_str()),
                None => None,
            },
            CardImage::Insert(insert) => match self.inserts.get(insert) {
                Some(u) => Some(u.as_str()),
                None => None,
            },
        }
    }
}

/// The library and the published images that are in use together.
#[derive(Debug)]
pub struct ActiveState {
    pub library: MultiLibrary,
    pub published: PublishedAssetIndex,
}

pub ghost struct ActiveStateView {
    pub library: MultiLibraryView,
    pub published: PublishedView,
}

impl View for ActiveState {
    type V = ActiveStateView;

    open spec fn view(&self) -> ActiveStateView {
        ActiveStateView { library: self.library@, published: self.published@ }
    }
}

impl Clone for ActiveState {
    fn clone(&self) -> (r: Self)
        ensures
            r@ == self@,
    {
        ActiveState { library: self.library.deep_copy(), published: self.published.deep_copy() }
    }
}

/// The image shown for `image`: a local override of a printing first, then a
/// published URL, then the URL derived from the identity.
pub open spec fn resolved_image_url(
    image: ImageKey,
    library: MultiLibraryView,
    published: PublishedView,
) -> Seq<char> {
    match image {
        ImageKey::Face(k) if last_local_image(library.local_images, k) is Some => last_local_image(
            library.local_images,
            k,
        )->0,
        _ => match published_url(published, image) {
            Some(u) => u,
            None => legacy_image_url(image),
        },
    }
}

pub fn resolve_image_url(
    image: &CardImage,
    library: &MultiLibrary,
    published: &PublishedAssetIndex,
) -> (r: String)
    ensures
        r@ == resolved_image_url(image@, library@, published@),
{
    if let CardImage::CardFacePrinting(printing) = image {
        if let Some(url) = library.local_image_url(printing) {
            return String::from_str(url);
        }
    }
    match published.image_url(image) {
        Some(u) => String::from_str(u),
        None => image.image_url(),
    }
}

} // verus!

verus! {

/// One slot of a print list: a card face printing (remembering which card it
/// was chosen for) or an insert.
#[derive(Debug, PartialEq, Eq, Hash)]
pub enum FilledCardSlot {
    Card { printing: CardFacePrintingId, card_id: Option<CardId> },
    Insert { insert: InsertId },
}

pub ghost enum SlotView {
    Card { printing: FaceKey, card_id: Option<Seq<char>> },
    Insert { insert: InsertKey },
}

impl View for FilledCardSlot {
    type V = SlotView;

    open spec fn view(&self) -> SlotView {
        match self {
            FilledCardSlot::Card { printing, card_id } => SlotView::Card {
                printing: printing@,
                card_id: match card_id {
                    Some(c) => Some(c@),
                    None => None,
                },
            },
            FilledCardSlot::Insert { insert } => SlotView::Insert { insert: insert@ },
        }
    }
}

impl DeepCopy for FilledCardSlot {
    fn deep_copy(&self) -> (r: Self) {
        match self {
            FilledCardSlot::Card { printing, card_id } => FilledCardSlot::Card {
                printing: printing.deep_copy(),
                card_id: match card_id {
                    Some(c) => Some(c.deep_copy()),
                    None => None,
                },
            },
            FilledCardSlot::Insert { insert } => FilledCardSlot::Insert { insert: insert.deep_copy() },
        }
    }
}

impl Clone for FilledCardSlot {
    fn clone(&self) -> (r: Self)
        ensures
            r@ == self@,
    {
        self.deep_copy()
    }
}

/// Shown in place of a slot whose printing is no longer available.
pub const UNAVAILABLE_SLOT_NAME: &'static str = "Unavailable saved printing. Remove it and choose a current printing.";

/// The title shown for face `face` of `card`.
pub open spec fn face_title(card: CardView, face: Option<usize>) -> Seq<char> {
    match face {
        Some(n) if n != 1 => match card.faces {
            AltFacesView::Multiple(titles) => {
                let idx: int = if n >= 2 { n - 2 } else { 0 };
                if idx < titles.len() {
                    titles[idx].title
                } else {
                    card.title.title
                }
            },
            _ => card.title.title,
        },
        _ => card.title.title,
    }
}

/// The name shown for a slot.
pub open spec fn slot_name(slot: SlotView, library: MultiLibraryView) -> Seq<char> {
    if !crate::runtime_library::slot_available_spec(slot, library) {
        UNAVAILABLE_SLOT_NAME@
    } else {
        match slot {
            SlotView::Card { printing, .. } => {
                let group = library.libraries[printing.group];
                let card_id = group.faces[printing].card_id;
                if group.cards.contains_key(card_id) {
                    face_title(group.cards[card_id], printing.face)
                } else {
                    "Missing card "@ + decimal(printing.id as nat) + " ("@ + printing.group + ")"@
                }
            },
            SlotView::Insert { insert } => library.libraries[insert.group].inserts[insert].title.title,
        }
    }
}

/// The image shown for a slot: nothing for an unavailable one.
pub open spec fn slot_image_url(slot: SlotView, state: ActiveStateView) -> Seq<char> {
    if !crate::runtime_library::slot_available_spec(slot, state.library) {
        Seq::empty()
    } else {
        resolved_image_url(slot_image(slot), state.library, state.published)
    }
}

pub open spec fn slot_image(slot: SlotView) -> ImageKey {
    match slot {
        SlotView::Card { printing, .. } => ImageKey::Face(printing),
        SlotView::Insert { insert } => ImageKey::Insert(insert),
    }
}

impl FilledCardSlot {
    /// Whether a local image overrides this slot's printing.
    pub fn is_local_override(&self, state: &ActiveState) -> (r: bool)
        ensures
            r == (match self@ {
                SlotView::Card { printing, .. } => last_local_image(
                    state@.library.local_images,
                    printing,
                ) is Some,
                SlotView::Insert { .. } => false,
            }),
    {
        match self {
            FilledCardSlot::Card { printing, .. } => state.library.local_image_url(printing).is_some(),
            FilledCardSlot::Insert { .. } => false,
        }
    }

    pub fn image_url(&self, state: &ActiveState) -> (r: String)
        ensures
            r@ == slot_image_url(self@, state@),
    {
        let image = match self {
            FilledCardSlot::Card { printing, .. } => CardImage::CardFacePrinting(printing.deep_copy()),
            FilledCardSlot::Insert { insert } => CardImage::Insert(insert.deep_copy()),
        };
        if !crate::runtime_library::slot_available(self, &state.library) {
            return String::new();
        }
        resolve_image_url(&image, &state.library, &state.published)
    }

    pub fn is_available(&self, state: &ActiveState) -> (r: bool)
        ensures
            r == crate::runtime_library::slot_available_spec(self@, state@.library),
    {
        crate::runtime_library::slot_available(self, &state.library)
    }

    pub fn name(&self, state: &ActiveState) -> (r: String)
        ensures
            r@ == slot_name(self@, state@.library),
    {
        let library = &state.library;
        if !crate::runtime_library::slot_available(self, library) {
            return String::from_str(UNAVAILABLE_SLOT_NAME);
        }
        match self {
            FilledCardSlot::Card { printing, .. } => {
                let group = library.libraries.get(&printing.print_group).unwrap();
                let card = match group.try_get_face_card(printing) {
                    Some(card) => card,
                    None => {
                        let mut s = String::from_str("Missing card ");
                        let id = decimal_string(printing.id as u64);
                        s.append(id.as_str());
                        s.append(" (");
                        s.append(printing.print_group.as_str());
                        s.append(")");
                        return s;
                    },
                };
                match printing.face_or_variant_specifier {
                    Some(n) if n != 1 => match &card.alternate_face_data {
                        AlternateFaceMetadata::Multiple(titles) => {
                            let idx = if n >= 2 { n - 2 } else { 0 };
                            if idx < titles.len() {
                                titles[idx].title.deep_copy()
                            } else {
                                card.title.title.deep_copy()
                            }
                        },
                        _ => card.title.title.deep_copy(),
                    },
                    _ => card.title.title.deep_copy(),
                }
            },
            FilledCardSlot::Insert { insert } => {
                let group = library.libraries.get(&insert.print_group).unwrap();
                group.inserts.get(insert).unwrap().title.title.deep_copy()
            },
        }
    }
}

} // verus!
