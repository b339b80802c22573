//! The general published asset catalogue: which proxy images it offers for the
//! printings and inserts that the bundled library knows.

use vstd::prelude::*;
use crate::assoc::AssocList;
use crate::library::{
    CardFacePrintingId, FaceKey, InsertId, InsertKey, MultiLibrary, MultiLibraryView,
    PublishedAssetIndex, PublishedView,
};
use crate::scan::{try_fold, lemma_try_fold_next, lemma_try_fold_all, lemma_try_fold_err};
use crate::text::{has_prefix, parse_u32, parse_u32_spec, segment_after_last, after_last, str_eq, str_starts_with};

verus! {

/// One rendition of a published face.
#[derive(Debug)]
pub struct PublishedAsset {
    pub profile: String,
    pub rendition: String,
    pub format: String,
    pub catalogs: Vec<String>,
    pub url: String,
}

pub ghost struct AssetView {
    pub profile: Seq<char>,
    pub rendition: Seq<char>,
    pub format: Seq<char>,
    pub catalogs: Seq<Seq<char>>,
    pub url: Seq<char>,
}

impl View for PublishedAsset {
    type V = AssetView;

    open spec fn view(&self) -> AssetView {
        AssetView {
            profile: self.profile@,
            rendition: self.rendition@,
            format: self.format@,
            catalogs: self.catalogs@.map_values(|c: String| c@),
            url: self.url@,
        }
    }
}

/// A published face image and its renditions.
#[derive(Debug)]
pub struct PublishedFace {
    pub id: String,
    pub asset: Vec<PublishedAsset>,
}

pub ghost struct FaceView {
    pub id: Seq<char>,
    pub assets: Seq<AssetView>,
}

impl View for PublishedFace {
    type V = FaceView;

    open spec fn view(&self) -> FaceView {
        FaceView { id: self.id@, assets: self.asset@.map_values(|a: PublishedAsset| a@) }
    }
}

/// A published printing and the faces it shows.
#[derive(Debug)]
pub struct PublishedPrinting {
    pub external_printing_id: Option<String>,
    pub external_front_face_index: Option<usize>,
    pub external_back_face_index: Option<usize>,
    pub language: String,
    pub art_kind: String,
    pub publisher: String,
    pub state: String,
    pub front_face_id: String,
    pub back_face_id: Option<String>,
}

pub ghost struct PrintingEntryView {
    pub external_printing_id: Option<Seq<char>>,
    pub front_index: Option<usize>,
    pub back_index: Option<usize>,
    pub language: Seq<char>,
    pub art_kind: Seq<char>,
    pub publisher: Seq<char>,
    pub state: Seq<char>,
    pub front_face_id: Seq<char>,
    pub back_face_id: Option<Seq<char>>,
}

pub open spec fn opt_view(s: Option<String>) -> Option<Seq<char>> {
    match s {
        Some(v) => Some(v@),
        None => None,
    }
}

impl View for PublishedPrinting {
    type V = PrintingEntryView;

    open spec fn view(&self) -> PrintingEntryView {
        PrintingEntryView {
            external_printing_id: opt_view(self.external_printing_id),
            front_index: self.external_front_face_index,
            back_index: self.external_back_face_index,
            language: self.language@,
            art_kind: self.art_kind@,
            publisher: self.publisher@,
            state: self.state@,
            front_face_id: self.front_face_id@,
            back_face_id: opt_view(self.back_face_id),
        }
    }
}

/// A published insert.
#[derive(Debug)]
pub struct PublishedInsert {
    pub id: String,
    pub external_insert_id: Option<String>,
    pub language: String,
    pub state: String,
    pub front_face_id: String,
}

pub ghost struct InsertEntryView {
    pub id: Seq<char>,
    pub external_insert_id: Option<Seq<char>>,
    pub language: Seq<char>,
    pub state: Seq<char>,
    pub front_face_id: Seq<char>,
}

impl View for PublishedInsert {
    type V = InsertEntryView;

    open spec fn view(&self) -> InsertEntryView {
        InsertEntryView {
            id: self.id@,
            external_insert_id: opt_view(self.external_insert_id),
            language: self.language@,
            state: self.state@,
            front_face_id: self.front_face_id@,
        }
    }
}

pub open spec fn face_views(faces: Seq<PublishedFace>) -> Seq<FaceView> {
    faces.map_values(|f: PublishedFace| f@)
}

pub open spec fn printing_views(printings: Seq<PublishedPrinting>) -> Seq<PrintingEntryView> {
    printings.map_values(|p: PublishedPrinting| p@)
}

pub open spec fn insert_views(inserts: Seq<PublishedInsert>) -> Seq<InsertEntryView> {
    inserts.map_values(|i: PublishedInsert| i@)
}

/// The general asset catalogue.
#[derive(Debug)]
pub struct PublishedAssetCatalog {
    pub schema: u32,
    pub face: Vec<PublishedFace>,
    pub printing: Vec<PublishedPrinting>,
    pub insert: Vec<PublishedInsert>,
}

pub ghost struct CatalogView {
    pub schema: u32,
    pub faces: Seq<FaceView>,
    pub printings: Seq<PrintingEntryView>,
    pub inserts: Seq<InsertEntryView>,
}

impl View for PublishedAssetCatalog {
    type V = CatalogView;

    open spec fn view(&self) -> CatalogView {
        CatalogView {
            schema: self.schema,
            faces: face_views(self.face@),
            printings: printing_views(self.printing@),
            inserts: insert_views(self.insert@),
        }
    }
}

/// The print group of a catalogue language.
pub open spec fn language_group(language: Seq<char>) -> Option<Seq<char>> {
    if language == "en"@ {
        Some("english"@)
    } else if language == "es"@ {
        Some("spanish"@)
    } else if language == "fr"@ {
        Some("french"@)
    } else if language == "de"@ {
        Some("german"@)
    } else if language == "it"@ {
        Some("italian"@)
    } else if language == "ja"@ {
        Some("japanese"@)
    } else if language == "ko"@ {
        Some("korean"@)
    } else {
        None
    }
}

/// The print group of a catalogue language, if it has one.
pub fn print_group_for_language(language: &str) -> (r: Option<&'static str>)
    ensures
        match r {
            Some(g) => language_group(language@) == Some(g@),
            None => language_group(language@) is None,
        },
{
    if str_eq(language, "en") {
        Some("english")
    } else if str_eq(language, "es") {
        Some("spanish")
    } else if str_eq(language, "fr") {
        Some("french")
    } else if str_eq(language, "de") {
        Some("german")
    } else if str_eq(language, "it") {
        Some("italian")
    } else if str_eq(language, "ja") {
        Some("japanese")
    } else if str_eq(language, "ko") {
        Some("korean")
    } else {
        None
    }
}

/// Inserts whose catalogue name differs from the library's.
pub open spec fn renamed_insert(name: Seq<char>) -> Seq<char> {
    if name == "corp_turn_steps"@ {
        "turn_structure_corp"@
    } else if name == "runner_turn_steps"@ {
        "turn_structure_runner"@
    } else {
        name
    }
}

/// The library name of a catalogue insert: its external identity, else the
/// last `:`-separated segment of its identity, renamed where the two differ.
pub open spec fn insert_name(insert: InsertEntryView) -> Seq<char> {
    renamed_insert(
        match insert.external_insert_id {
            Some(e) => e,
            None => after_last(insert.id, ':'),
        },
    )
}

/// The library name of a catalogue insert (always present).
pub fn published_insert_name(insert: &PublishedInsert) -> (r: Option<&str>)
    ensures
        match r {
            Some(n) => n@ == insert_name(insert@),
            None => false,
        },
{
    let name: &str = match &insert.external_insert_id {
        Some(e) => e.as_str(),
        None => segment_after_last(insert.id.as_str(), ':'),
    };
    if str_eq(name, "corp_turn_steps") {
        Some("turn_structure_corp")
    } else if str_eq(name, "runner_turn_steps") {
        Some("turn_structure_runner")
    } else {
        Some(name)
    }
}

/// Why the catalogue cannot be used.
#[derive(Debug)]
pub enum CatalogError {
    /// The catalogue's schema is not 1.
    UnsupportedSchema,
    /// The face has proxy WebPs with different URLs.
    ConflictingWebps(String),
    /// The face's proxy WebP is not served over HTTPS.
    NonHttpsUrl(String),
    /// The face occurs twice with a proxy WebP.
    RepeatedFace(String),
    /// A released official printing has a non-numeric identity.
    NonNumericPrintingId(String),
    /// The printing number is mapped to different URLs.
    ConflictingPrintingUrls(u32),
    /// The insert is mapped to different URLs.
    ConflictingInsertUrls(String),
}

pub ghost enum CatalogErrorView {
    UnsupportedSchema,
    ConflictingWebps(Seq<char>),
    NonHttpsUrl(Seq<char>),
    RepeatedFace(Seq<char>),
    NonNumericPrintingId(Seq<char>),
    ConflictingPrintingUrls(u32),
    ConflictingInsertUrls(Seq<char>),
}

impl View for CatalogError {
    type V = CatalogErrorView;

    open spec fn view(&self) -> CatalogErrorView {
        match self {
            CatalogError::UnsupportedSchema => CatalogErrorView::UnsupportedSchema,
            CatalogError::ConflictingWebps(f) => CatalogErrorView::ConflictingWebps(f@),
            CatalogError::NonHttpsUrl(f) => CatalogErrorView::NonHttpsUrl(f@),
            CatalogError::RepeatedFace(f) => CatalogErrorView::RepeatedFace(f@),
            CatalogError::NonNumericPrintingId(i) => CatalogErrorView::NonNumericPrintingId(i@),
            CatalogError::ConflictingPrintingUrls(n) => CatalogErrorView::ConflictingPrintingUrls(*n),
            CatalogError::ConflictingInsertUrls(n) => CatalogErrorView::ConflictingInsertUrls(n@),
        }
    }
}

/// A full-size square proxy WebP listed in the proxy catalogue.
pub open spec fn is_proxy_webp(a: AssetView) -> bool {
    &&& a.profile == "proxy-square-v1"@
    &&& a.rendition == "full"@
    &&& a.format == "webp"@
    &&& a.catalogs.contains("proxy"@)
}

/// The face has two proxy WebPs with different URLs.
pub open spec fn has_conflicting_webps(f: FaceView) -> bool {
    exists|i: int, j: int|
        0 <= i < f.assets.len() && 0 <= j < f.assets.len() && #[trigger] is_proxy_webp(f.assets[i])
            && #[trigger] is_proxy_webp(f.assets[j]) && f.assets[i].url != f.assets[j].url
}

/// The URL of the face's proxy WebP, if it has one.
pub open spec fn proxy_webp_url(f: FaceView) -> Option<Seq<char>> {
    if exists|i: int| 0 <= i < f.assets.len() && #[trigger] is_proxy_webp(f.assets[i]) {
        Some(f.assets[choose|i: int| 0 <= i < f.assets.len() && #[trigger] is_proxy_webp(f.assets[i])].url)
    } else {
        None
    }
}

/// One face of the catalogue added to the map from face identity to URL.
pub open spec fn face_step(urls: Map<Seq<char>, Seq<char>>, f: FaceView) -> Result<
    Map<Seq<char>, Seq<char>>,
    CatalogErrorView,
> {
    if has_conflicting_webps(f) {
        Err(CatalogErrorView::ConflictingWebps(f.id))
    } else {
        match proxy_webp_url(f) {
            None => Ok(urls),
            Some(u) => if !has_prefix(u, "https://"@) {
                Err(CatalogErrorView::NonHttpsUrl(f.id))
            } else if urls.contains_key(f.id) {
                Err(CatalogErrorView::RepeatedFace(f.id))
            } else {
                Ok(urls.insert(f.id, u))
            },
        }
    }
}

pub open spec fn face_stepper() -> spec_fn(Map<Seq<char>, Seq<char>>, FaceView) -> Result<
    Map<Seq<char>, Seq<char>>,
    CatalogErrorView,
> {
    |urls: Map<Seq<char>, Seq<char>>, f: FaceView| face_step(urls, f)
}

/// The proxy WebP URL of every face, by face identity.
pub open spec fn face_urls(faces: Seq<FaceView>) -> Result<Map<Seq<char>, Seq<char>>, CatalogErrorView> {
    try_fold(faces, Map::empty(), face_stepper())
}

/// The face printing is in the library.
pub open spec fn known_face(library: MultiLibraryView, key: FaceKey) -> bool {
    library.libraries.contains_key(key.group) && library.libraries[key.group].faces.contains_key(key)
}

/// The insert is in the library.
pub open spec fn known_insert(library: MultiLibraryView, key: InsertKey) -> bool {
    library.libraries.contains_key(key.group) && library.libraries[key.group].inserts.contains_key(key)
}

/// One face of a printing added to the map from face printing to URL: only a
/// face with a proxy WebP whose printing the library knows, and never with a
/// second URL.
pub open spec fn face_alias_step(
    acc: Map<FaceKey, Seq<char>>,
    face_id: Option<Seq<char>>,
    index: Option<usize>,
    id: u32,
    group: Seq<char>,
    urls: Map<Seq<char>, Seq<char>>,
    library: MultiLibraryView,
) -> Result<Map<FaceKey, Seq<char>>, CatalogErrorView> {
    match face_id {
        None => Ok(acc),
        Some(fid) => if !urls.contains_key(fid) {
            Ok(acc)
        } else {
            let key = FaceKey { id, face: index, group };
            if !known_face(library, key) {
                Ok(acc)
            } else if acc.contains_key(key) && acc[key] != urls[fid] {
                Err(CatalogErrorView::ConflictingPrintingUrls(id))
            } else {
                Ok(acc.insert(key, urls[fid]))
            }
        },
    }
}

/// A released official printing of a known language adds its front and back
/// faces.
pub open spec fn printing_step(
    acc: Map<FaceKey, Seq<char>>,
    p: PrintingEntryView,
    urls: Map<Seq<char>, Seq<char>>,
    library: MultiLibraryView,
) -> Result<Map<FaceKey, Seq<char>>, CatalogErrorView> {
    if !(p.publisher == "nsg"@ && p.art_kind == "official"@ && p.state == "released"@) {
        Ok(acc)
    } else {
        match p.external_printing_id {
            None => Ok(acc),
            Some(ext) => match parse_u32_spec(ext) {
                None => Err(CatalogErrorView::NonNumericPrintingId(ext)),
                Some(id) => match language_group(p.language) {
                    None => Ok(acc),
                    Some(group) => match face_alias_step(
                        acc,
                        Some(p.front_face_id),
                        p.front_index,
                        id,
                        group,
                        urls,
                        library,
                    ) {
                        Ok(a) => face_alias_step(a, p.back_face_id, p.back_index, id, group, urls, library),
                        Err(e) => Err(e),
                    },
                },
            },
        }
    }
}

pub open spec fn printing_stepper(urls: Map<Seq<char>, Seq<char>>, library: MultiLibraryView) -> spec_fn(
    Map<FaceKey, Seq<char>>,
    PrintingEntryView,
) -> Result<Map<FaceKey, Seq<char>>, CatalogErrorView> {
    |acc: Map<FaceKey, Seq<char>>, p: PrintingEntryView| printing_step(acc, p, urls, library)
}

/// A released insert of a known language that the library knows adds its URL.
pub open spec fn insert_step(
    acc: Map<InsertKey, Seq<char>>,
    ins: InsertEntryView,
    urls: Map<Seq<char>, Seq<char>>,
    library: MultiLibraryView,
) -> Result<Map<InsertKey, Seq<char>>, CatalogErrorView> {
    if ins.state != "released"@ {
        Ok(acc)
    } else {
        match language_group(ins.language) {
            None => Ok(acc),
            Some(group) => {
                let name = insert_name(ins);
                if !urls.contains_key(ins.front_face_id) {
                    Ok(acc)
                } else {
                    let key = InsertKey { name, group };
                    if !known_insert(library, key) {
                        Ok(acc)
                    } else if acc.contains_key(key) && acc[key] != urls[ins.front_face_id] {
                        Err(CatalogErrorView::ConflictingInsertUrls(name))
                    } else {
                        Ok(acc.insert(key, urls[ins.front_face_id]))
                    }
                }
            },
        }
    }
}

pub open spec fn insert_stepper(urls: Map<Seq<char>, Seq<char>>, library: MultiLibraryView) -> spec_fn(
    Map<InsertKey, Seq<char>>,
    InsertEntryView,
) -> Result<Map<InsertKey, Seq<char>>, CatalogErrorView> {
    |acc: Map<InsertKey, Seq<char>>, i: InsertEntryView| insert_step(acc, i, urls, library)
}

/// The published images that the catalogue offers for what the library knows.
pub open spec fn published_index(catalog: CatalogView, library: MultiLibraryView) -> Result<
    PublishedView,
    CatalogErrorView,
> {
    if catalog.schema != 1 {
        Err(CatalogErrorView::UnsupportedSchema)
    } else {
        match face_urls(catalog.faces) {
            Err(e) => Err(e),
            Ok(urls) => match try_fold(catalog.printings, Map::empty(), printing_stepper(urls, library)) {
                Err(e) => Err(e),
                Ok(card_faces) => match try_fold(catalog.inserts, Map::empty(), insert_stepper(urls, library)) {
                    Err(e) => Err(e),
                    Ok(inserts) => Ok(PublishedView { card_faces, inserts }),
                },
            },
        }
    }
}

fn asset_is_proxy_webp(a: &PublishedAsset) -> (r: bool)
    ensures
        r == is_proxy_webp(a@),
{
    if !(str_eq(a.profile.as_str(), "proxy-square-v1") && str_eq(a.rendition.as_str(), "full")
        && str_eq(a.format.as_str(), "webp")) {
        return false;
    }
    let ghost cats = a@.catalogs;
    let mut i: usize = 0;
    while i < a.catalogs.len()
        invariant
            i <= a.catalogs.len(),
            cats == a.catalogs@.map_values(|c: String| c@),
            a@.profile == "proxy-square-v1"@,
            a@.rendition == "full"@,
            a@.format == "webp"@,
            forall|j: int| 0 <= j < i ==> cats[j] != "proxy"@,
        decreases a.catalogs.len() - i,
    {
        if str_eq(a.catalogs[i].as_str(), "proxy") {
            assert(cats[i as int] == "proxy"@);
            return true;
        }
        i += 1;
    }
    assert(!cats.contains("proxy"@));
    false
}

/// The URL of the face's proxy WebP; `Err` when two of them differ.
fn face_proxy_url(face: &PublishedFace) -> (r: Result<Option<&String>, ()>)
    ensures
        r is Err <==> has_conflicting_webps(face@),
        r matches Ok(Some(u)) ==> proxy_webp_url(face@) == Some(u@),
        r matches Ok(None) ==> proxy_webp_url(face@) is None,
{
    let ghost f = face@;
    let mut found: Option<&String> = None;
    let mut i: usize = 0;
    while i < face.asset.len()
        invariant
            i <= face.asset.len(),
            f == face@,
            f.assets.len() == face.asset.len(),
            found is None ==> forall|j: int| 0 <= j < i ==> !#[trigger] is_proxy_webp(f.assets[j]),
            found matches Some(u) ==> {
                &&& exists|j: int| 0 <= j < i && #[trigger] is_proxy_webp(f.assets[j]) && f.assets[j].url == u@
                &&& forall|j: int| 0 <= j < i && #[trigger] is_proxy_webp(f.assets[j]) ==> f.assets[j].url == u@
            },
        decreases face.asset.len() - i,
    {
        let a = &face.asset[i];
        assert(f.assets[i as int] == a@);
        if asset_is_proxy_webp(a) {
            match found {
                None => {
                    found = Some(&a.url);
                },
                Some(u) => {
                    if !str_eq(u.as_str(), a.url.as_str()) {
                        let ghost j = choose|j: int| 0 <= j < i && #[trigger] is_proxy_webp(f.assets[j]) && f.assets[j].url == u@;
                        assert(is_proxy_webp(f.assets[j]) && is_proxy_webp(f.assets[i as int]));
                        return Err(());
                    }
                },
            }
        }
        i += 1;
    }
    proof {
        if has_conflicting_webps(f) {
            let (x, y) = choose|x: int, y: int|
                0 <= x < f.assets.len() && 0 <= y < f.assets.len() && #[trigger] is_proxy_webp(f.assets[x])
                    && #[trigger] is_proxy_webp(f.assets[y]) && f.assets[x].url != f.assets[y].url;
            assert(is_proxy_webp(f.assets[x]) && is_proxy_webp(f.assets[y]));
        }
        match found {
            None => {},
            Some(u) => {
                let c = choose|j: int| 0 <= j < f.assets.len() && #[trigger] is_proxy_webp(f.assets[j]);
                assert(is_proxy_webp(f.assets[c]));
            },
        }
    }
    Ok(found)
}

/// The proxy WebP URL of every face, by face identity.
fn collect_face_urls(faces: &Vec<PublishedFace>) -> (r: Result<AssocList<String, String>, CatalogError>)
    ensures
        match r {
            Ok(m) => face_urls(face_views(faces@)) == Ok::<_, CatalogErrorView>(m@),
            Err(e) => face_urls(face_views(faces@)) == Err::<Map<Seq<char>, Seq<char>>, _>(e@),
        },
{
    let ghost fs = face_views(faces@);
    let ghost empty = Map::<Seq<char>, Seq<char>>::empty();
    let mut urls: AssocList<String, String> = AssocList::new();
    let mut i: usize = 0;
    while i < faces.len()
        invariant
            i <= faces.len(),
            fs == face_views(faces@),
            empty == Map::<Seq<char>, Seq<char>>::empty(),
            try_fold(fs.subrange(0, i as int), empty, face_stepper()) == Ok::<_, CatalogErrorView>(urls@),
        decreases faces.len() - i,
    {
        let face = &faces[i];
        proof {
            lemma_try_fold_next(fs, empty, face_stepper(), i as int);
            assert(fs[i as int] == face@);
        }
        match face_proxy_url(face) {
            Err(()) => {
                let e = CatalogError::ConflictingWebps(face.id.clone());
                proof {
                    assert(face_step(urls@, face@) == Err::<Map<Seq<char>, Seq<char>>, _>(e@));
                    assert(try_fold(fs.subrange(0, i + 1), empty, face_stepper()) == Err::<Map<Seq<char>, Seq<char>>, _>(e@));
                    lemma_try_fold_err(fs, empty, face_stepper(), i + 1);
                    assert(try_fold(fs, empty, face_stepper()) == Err::<Map<Seq<char>, Seq<char>>, _>(e@));

                    assert(fs == face_views(faces@));
                }
                return Err(e);
            },
            Ok(None) => {},
            Ok(Some(u)) => {
                if !str_starts_with(u.as_str(), "https://") {
                    proof {
                        lemma_try_fold_err(fs, empty, face_stepper(), i + 1);
                    }
                    return Err(CatalogError::NonHttpsUrl(face.id.clone()));
                }
                if urls.contains_key(&face.id) {
                    proof {
                        lemma_try_fold_err(fs, empty, face_stepper(), i + 1);
                    }
                    return Err(CatalogError::RepeatedFace(face.id.clone()));
                }
                urls.insert(face.id.clone(), u.clone());
            },
        }
        i += 1;
    }
    proof {
        lemma_try_fold_all(fs, empty, face_stepper());
    }
    Ok(urls)
}

pub open spec fn opt_ref_view(o: Option<&String>) -> Option<Seq<char>> {
    match o {
        Some(v) => Some(v@),
        None => None,
    }
}

/// Adds one face of a printing to `acc`; see `face_alias_step`.
fn add_face_alias(
    acc: &mut AssocList<CardFacePrintingId, String>,
    face_id: Option<&String>,
    index: Option<usize>,
    id: u32,
    group: &str,
    urls: &AssocList<String, String>,
    library: &MultiLibrary,
) -> (r: Result<(), CatalogError>)
    ensures
        match face_alias_step(old(acc)@, opt_ref_view(face_id), index, id, group@, urls@, library@) {
            Ok(m) => r is Ok && final(acc)@ == m,
            Err(e) => r matches Err(x) && x@ == e,
        },
{
    let fid = match face_id {
        None => {
            return Ok(());
        },
        Some(f) => f,
    };
    let url = match urls.get(fid) {
        None => {
            return Ok(());
        },
        Some(u) => u,
    };
    let key = CardFacePrintingId { id, face_or_variant_specifier: index, print_group: String::from_str(group) };
    let known = match library.libraries.get(&key.print_group) {
        Some(l) => l.faces.contains_key(&key),
        None => false,
    };
    if !known {
        return Ok(());
    }
    match acc.get(&key) {
        Some(existing) => {
            if !str_eq(existing.as_str(), url.as_str()) {
                return Err(CatalogError::ConflictingPrintingUrls(id));
            }
        },
        None => {},
    }
    acc.insert(key, url.clone());
    Ok(())
}

/// Adds the faces of one catalogue printing to `acc`; see `printing_step`.
fn add_printing(
    acc: &mut AssocList<CardFacePrintingId, String>,
    p: &PublishedPrinting,
    urls: &AssocList<String, String>,
    library: &MultiLibrary,
) -> (r: Result<(), CatalogError>)
    ensures
        match printing_step(old(acc)@, p@, urls@, library@) {
            Ok(m) => r is Ok && final(acc)@ == m,
            Err(e) => r matches Err(x) && x@ == e,
        },
{
    if !(str_eq(p.publisher.as_str(), "nsg") && str_eq(p.art_kind.as_str(), "official") && str_eq(
        p.state.as_str(),
        "released",
    )) {
        return Ok(());
    }
    let ext = match &p.external_printing_id {
        None => {
            return Ok(());
        },
        Some(e) => e,
    };
    let id = match parse_u32(ext.as_str()) {
        None => {
            return Err(CatalogError::NonNumericPrintingId(ext.clone()));
        },
        Some(n) => n,
    };
    let group = match print_group_for_language(p.language.as_str()) {
        None => {
            return Ok(());
        },
        Some(g) => g,
    };
    let front = add_face_alias(acc, Some(&p.front_face_id), p.external_front_face_index, id, group, urls, library);
    if let Err(e) = front {
        return Err(e);
    }
    let back_id: Option<&String> = match &p.back_face_id {
        Some(b) => Some(b),
        None => None,
    };
    add_face_alias(acc, back_id, p.external_back_face_index, id, group, urls, library)
}

/// The published URL of every known face printing.
fn collect_card_faces(
    printings: &Vec<PublishedPrinting>,
    urls: &AssocList<String, String>,
    library: &MultiLibrary,
) -> (r: Result<AssocList<CardFacePrintingId, String>, CatalogError>)
    ensures
        match try_fold(printing_views(printings@), Map::empty(), printing_stepper(urls@, library@)) {
            Ok(m) => r matches Ok(x) && x@ == m,
            Err(e) => r matches Err(x) && x@ == e,
        },
{
    let ghost ps = printing_views(printings@);
    let ghost step = printing_stepper(urls@, library@);
    let mut acc: AssocList<CardFacePrintingId, String> = AssocList::new();
    let mut i: usize = 0;
    while i < printings.len()
        invariant
            i <= printings.len(),
            ps == printing_views(printings@),
            step == printing_stepper(urls@, library@),
            try_fold(ps.subrange(0, i as int), Map::empty(), step) == Ok::<_, CatalogErrorView>(acc@),
        decreases printings.len() - i,
    {
        proof {
            lemma_try_fold_next(ps, Map::empty(), step, i as int);
            assert(ps[i as int] == printings[i as int]@);
        }
        let added = add_printing(&mut acc, &printings[i], urls, library);
        if let Err(e) = added {
            proof {
                lemma_try_fold_err(ps, Map::empty(), step, i + 1);
            }
            return Err(e);
        }
        i += 1;
    }
    proof {
        lemma_try_fold_all(ps, Map::empty(), step);
    }
    Ok(acc)
}

/// Adds one catalogue insert to `acc`; see `insert_step`.
fn add_insert(
    acc: &mut AssocList<InsertId, String>,
    ins: &PublishedInsert,
    urls: &AssocList<String, String>,
    library: &MultiLibrary,
) -> (r: Result<(), CatalogError>)
    ensures
        match insert_step(old(acc)@, ins@, urls@, library@) {
            Ok(m) => r is Ok && final(acc)@ == m,
            Err(e) => r matches Err(x) && x@ == e,
        },
{
    if !str_eq(ins.state.as_str(), "released") {
        return Ok(());
    }
    let group = match print_group_for_language(ins.language.as_str()) {
        None => {
            return Ok(());
        },
        Some(g) => g,
    };
    let name = match published_insert_name(ins) {
        None => {
            return Ok(());
        },
        Some(n) => n,
    };
    let url = match urls.get(&ins.front_face_id) {
        None => {
            return Ok(());
        },
        Some(u) => u,
    };
    let key = InsertId { name: String::from_str(name), print_group: String::from_str(group) };
    let known = match library.libraries.get(&key.print_group) {
        Some(l) => l.inserts.contains_key(&key),
        None => false,
    };
    if !known {
        return Ok(());
    }
    match acc.get(&key) {
        Some(existing) => {
            if !str_eq(existing.as_str(), url.as_str()) {
                return Err(CatalogError::ConflictingInsertUrls(String::from_str(name)));
            }
        },
        None => {},
    }
    acc.insert(key, url.clone());
    Ok(())
}

/// The published URL of every known insert.
fn collect_inserts(
    inserts: &Vec<PublishedInsert>,
    urls: &AssocList<String, String>,
    library: &MultiLibrary,
) -> (r: Result<AssocList<InsertId, String>, CatalogError>)
    ensures
        match try_fold(insert_views(inserts@), Map::empty(), insert_stepper(urls@, library@)) {
            Ok(m) => r matches Ok(x) && x@ == m,
            Err(e) => r matches Err(x) && x@ == e,
        },
{
    let ghost xs = insert_views(inserts@);
    let ghost step = insert_stepper(urls@, library@);
    let mut acc: AssocList<InsertId, String> = AssocList::new();
    let mut i: usize = 0;
    while i < inserts.len()
        invariant
            i <= inserts.len(),
            xs == insert_views(inserts@),
            step == insert_stepper(urls@, library@),
            try_fold(xs.subrange(0, i as int), Map::empty(), step) == Ok::<_, CatalogErrorView>(acc@),
        decreases inserts.len() - i,
    {
        proof {
            lemma_try_fold_next(xs, Map::empty(), step, i as int);
            assert(xs[i as int] == inserts[i as int]@);
        }
        let added = add_insert(&mut acc, &inserts[i], urls, library);
        if let Err(e) = added {
            proof {
                lemma_try_fold_err(xs, Map::empty(), step, i + 1);
            }
            return Err(e);
        }
        i += 1;
    }
    proof {
        lemma_try_fold_all(xs, Map::empty(), step);
    }
    Ok(acc)
}

/// The images that the general catalogue publishes for the printings and
/// inserts of `library`: for each face, its one full-size square proxy WebP
/// (which must be HTTPS); for each released official NSG printing of a known
/// language, the WebPs of its front and back faces; for each released insert
/// of a known language, the WebP of its front face.  Only what the library
/// knows is kept, and nothing may be mapped to two URLs.
pub fn published_asset_index(catalog: &PublishedAssetCatalog, library: &MultiLibrary) -> (r: Result<
    PublishedAssetIndex,
    CatalogError,
>)
    ensures
        match published_index(catalog@, library@) {
            Ok(p) => r matches Ok(x) && x@ == p,
            Err(e) => r matches Err(x) && x@ == e,
        },
{
    if catalog.schema != 1 {
        return Err(CatalogError::UnsupportedSchema);
    }
    let urls = match collect_face_urls(&catalog.face) {
        Ok(u) => u,
        Err(e) => {
            return Err(e);
        },
    };
    let card_faces = match collect_card_faces(&catalog.printing, &urls, library) {
        Ok(c) => c,
        Err(e) => {
            return Err(e);
        },
    };
    let inserts = match collect_inserts(&catalog.insert, &urls, library) {
        Ok(c) => c,
        Err(e) => {
            return Err(e);
        },
    };
    Ok(PublishedAssetIndex::from_parts(card_faces, inserts))
}

} // verus!
