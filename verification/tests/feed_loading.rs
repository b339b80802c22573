use proxy_elev::assoc::KeySet;
use proxy_elev::proxy_consumer::{
    FaceKind, FaceMetadata, Label, PrintingMetadata as FeedMetadata, ProxyImage, ProxyIndex, ProxyIndexError,
    ProxyPrinting, sha256,
};
use proxy_elev::published::{PublishedAsset, PublishedAssetCatalog, PublishedFace, PublishedPrinting};
use proxy_elev::runtime_library::{LoadError, assemble_active_state, build_active_state, load_error_message, load_proxy_index};
use proxy_elev::{
    AlternateFaceMetadata, CardFacePrintingId, CardId, CardImage, CardMetadata, Library, LocalImageOverride,
    MultiLibrary, PrintingMetadata, Title, resolve_image_url,
};

const BASE: &str = "https://assets.example.test";
const UNSIGNED: &[u8] = b"unsigned feed";

fn text(s: &str) -> String {
    s.to_string()
}

fn digest(c: char) -> String {
    std::iter::repeat(c).take(64).collect()
}

fn title(s: &str) -> Title {
    Title { title: text(s), stripped_title: s.chars().filter(char::is_ascii).collect() }
}

fn printing_id(id: u32, face: Option<usize>) -> CardFacePrintingId {
    CardFacePrintingId { id, face_or_variant_specifier: face, print_group: text("english") }
}

/// A bundled library with one card, Conduit (printing 30024).
fn bundled() -> MultiLibrary {
    let mut english = Library::new();
    let mut printings = KeySet::new();
    printings.insert(printing_id(30024, None));
    english.cards.insert(
        CardId(text("conduit")),
        CardMetadata {
            title: title("Conduit"),
            alternate_face_data: AlternateFaceMetadata::Single,
            id: CardId(text("conduit")),
            printings,
        },
    );
    english.faces.insert(
        printing_id(30024, None),
        PrintingMetadata { id: printing_id(30024, None), card_id: CardId(text("conduit")), printing_name: text("System Gateway") },
    );
    let mut library = MultiLibrary::new();
    library.libraries.insert(text("english"), english);
    library.collection_names.insert(text("english"), text("NSG English"));
    library.local_images.push(LocalImageOverride {
        id: 30024,
        face_or_variant_specifier: None,
        print_group: text("english"),
        url: text("/local-assets/conduit.webp"),
    });
    library
}

fn image(face_id: &str, sha: &str) -> ProxyImage {
    ProxyImage {
        face_id: text(face_id),
        sha256: text(sha),
        bytes: 10,
        width: 750,
        height: 1050,
        media_type: text("image/webp"),
        url: format!("{BASE}/assets/v1/sha256/{}/{}.webp", &sha[..2], sha),
    }
}

fn single(id: &str, card_id: &str, number: u32, name: &str, sha: char) -> ProxyPrinting {
    let face_id = format!("{id}:front");
    ProxyPrinting {
        metadata: FeedMetadata {
            id: text(id),
            card_id: text(card_id),
            upstream_card_id: None,
            printing_id: number,
            print_group: text("english"),
            printing_name: text("Feed"),
            title: text(name),
            cycle: Label { id: text("c"), name: text("Cycle") },
            set: Label { id: text("s"), name: text("Set") },
            language: text("en"),
            face_kind: FaceKind::Single,
            faces: vec![FaceMetadata { id: face_id.clone(), title: text(name), selector: None }],
        },
        images: vec![image(&face_id, &digest(sha))],
    }
}

fn feed(printing: Vec<ProxyPrinting>) -> ProxyIndex {
    ProxyIndex {
        schema: 1,
        schema_url: format!("{BASE}/catalogs/v1/consumers/proxy/schema-1.json"),
        revision: sha256(UNSIGNED),
        profile: text("proxy-square-v1"),
        visibility: text("public"),
        printing,
    }
}

#[test]
fn new_card_from_the_feed_is_added_with_its_image() {
    let base = bundled();
    let index = feed(vec![single("a-preview", "33001", 99001, "Preview Card", 'a')]);
    let state = load_proxy_index(&base, &index, BASE, UNSIGNED).expect("loaded");
    let english = state.library.libraries.get(&text("english")).expect("group");
    let card = english.get_card(&CardId(text("33001")));
    assert_eq!(card.title.title, "Preview Card");
    assert!(card.printings.contains(&printing_id(99001, None)));
    assert_eq!(english.get_face_card(&printing_id(99001, None)).id, CardId(text("33001")));
    assert_eq!(state.published.card_face_count(), 1);
    assert_eq!(
        state.published.image_url(&CardImage::CardFacePrinting(printing_id(99001, None))),
        Some(format!("{BASE}/assets/v1/sha256/aa/{}.webp", digest('a')).as_str())
    );
}

#[test]
fn loading_keeps_the_bundled_library() {
    let base = bundled();
    let index = feed(vec![single("a-preview", "33001", 99001, "Preview Card", 'a')]);
    let state = load_proxy_index(&base, &index, BASE, UNSIGNED).expect("loaded");
    let english = state.library.libraries.get(&text("english")).expect("group");
    assert_eq!(english.get_card(&CardId(text("conduit"))).title.title, "Conduit");
    assert_eq!(english.get_face_card(&printing_id(30024, None)).id, CardId(text("conduit")));
    assert_eq!(state.library.local_image_url(&printing_id(30024, None)), Some("/local-assets/conduit.webp"));
    assert_eq!(state.library.collection_names.get(&text("english")), Some(&text("NSG English")));
}

#[test]
fn withdrawn_aliases_disappear_on_reload() {
    let base = bundled();
    let first = feed(vec![single("a-preview", "33001", 99001, "Preview Card", 'a')]);
    let loaded = load_proxy_index(&base, &first, BASE, UNSIGNED).expect("loaded");
    assert_eq!(loaded.published.card_face_count(), 1);
    let second = feed(vec![]);
    let reloaded = load_proxy_index(&base, &second, BASE, UNSIGNED).expect("loaded");
    assert_eq!(reloaded.published.card_face_count(), 0);
    let english = reloaded.library.libraries.get(&text("english")).expect("group");
    assert!(english.try_get_face_card(&printing_id(99001, None)).is_none());
}

#[test]
fn known_aliases_settle_on_their_card() {
    let base = bundled();
    let index = feed(vec![single("a-reprint", "stable-id", 30024, "Conduit", 'b')]);
    let state = load_proxy_index(&base, &index, BASE, UNSIGNED).expect("loaded");
    let english = state.library.libraries.get(&text("english")).expect("group");
    assert!(english.try_get_card(&CardId(text("stable-id"))).is_none());
    assert_eq!(english.get_face_card(&printing_id(30024, None)).id, CardId(text("conduit")));
}

#[test]
fn upstream_identity_is_used_when_given() {
    let base = bundled();
    let mut entry = single("a-preview", "stable", 99001, "Preview Card", 'a');
    entry.metadata.upstream_card_id = Some(text("33050"));
    let state = load_proxy_index(&base, &feed(vec![entry]), BASE, UNSIGNED).expect("loaded");
    let english = state.library.libraries.get(&text("english")).expect("group");
    assert_eq!(english.get_face_card(&printing_id(99001, None)).id, CardId(text("33050")));
}

#[test]
fn conflicting_titles_with_an_existing_card_are_refused() {
    let base = bundled();
    let index = feed(vec![single("a-reprint", "conduit", 99001, "Not Conduit", 'a')]);
    assert_eq!(load_proxy_index(&base, &index, BASE, UNSIGNED).err(), Some(LoadError::ConflictsWithExistingCard));
}

#[test]
fn alias_of_another_card_is_refused() {
    let base = bundled();
    let mut entry = single("a-reprint", "stable", 30024, "Conduit", 'a');
    entry.metadata.upstream_card_id = Some(text("someone-else"));
    let index = feed(vec![entry]);
    assert_eq!(load_proxy_index(&base, &index, BASE, UNSIGNED).err(), Some(LoadError::AliasConflictsWithIdentity));
}

#[test]
fn invalid_feed_is_not_loaded() {
    let base = bundled();
    let mut index = feed(vec![single("a-preview", "33001", 99001, "Preview Card", 'a')]);
    index.revision = digest('0');
    assert_eq!(
        load_proxy_index(&base, &index, BASE, UNSIGNED).err(),
        Some(LoadError::Invalid(ProxyIndexError::RevisionMismatch))
    );
}

#[test]
fn repeated_dynamic_alias_is_refused() {
    let base = bundled();
    let printings = vec![
        single("a-preview", "33001", 99001, "Preview Card", 'a'),
        single("b-preview", "33001", 99001, "Preview Card", 'b'),
    ];
    assert_eq!(build_active_state(&base, &printings).err(), Some(LoadError::DuplicateDynamicAlias));
}

#[test]
fn incomplete_aliases_without_identity_are_refused() {
    let base = bundled();
    let mut entry = single("a-mixed", "stable", 30024, "Mixed", 'a');
    entry.metadata.face_kind = FaceKind::Multiple;
    entry.metadata.faces = vec![
        FaceMetadata { id: text("m1"), title: text("Mixed"), selector: None },
        FaceMetadata { id: text("m2"), title: text("Mixed B"), selector: Some(2) },
    ];
    entry.images = vec![image("m1", &digest('a')), image("m2", &digest('b'))];
    assert_eq!(build_active_state(&base, &[entry]).err(), Some(LoadError::IncompleteAliases));
}

fn catalog_for_conduit() -> PublishedAssetCatalog {
    PublishedAssetCatalog {
        schema: 1,
        face: vec![PublishedFace {
            id: text("f"),
            asset: vec![PublishedAsset {
                profile: text("proxy-square-v1"),
                rendition: text("full"),
                format: text("webp"),
                catalogs: vec![text("proxy")],
                url: text("https://catalogue.test/conduit.webp"),
            }],
        }],
        printing: vec![PublishedPrinting {
            external_printing_id: Some(text("30024")),
            external_front_face_index: None,
            external_back_face_index: None,
            language: text("en"),
            art_kind: text("official"),
            publisher: text("nsg"),
            state: text("released"),
            front_face_id: text("f"),
            back_face_id: None,
        }],
        insert: vec![],
    }
}

#[test]
fn assembled_state_shows_local_then_feed_then_catalogue_images() {
    let mut base = bundled();
    base.local_images.clear();
    let index = feed(vec![single("a-preview", "33001", 99001, "Preview Card", 'a')]);
    let catalog = catalog_for_conduit();
    let (state, feed_error, catalog_error) =
        assemble_active_state(&base, Some(&index), BASE, UNSIGNED, Some(&catalog), None);
    assert!(feed_error.is_none());
    assert!(catalog_error.is_none());
    let conduit = CardImage::CardFacePrinting(printing_id(30024, None));
    assert_eq!(resolve_image_url(&conduit, &state.library, &state.published), "https://catalogue.test/conduit.webp");
    let preview = CardImage::CardFacePrinting(printing_id(99001, None));
    assert_eq!(
        resolve_image_url(&preview, &state.library, &state.published),
        format!("{BASE}/assets/v1/sha256/aa/{}.webp", digest('a'))
    );

    let mut overlay = MultiLibrary::new();
    overlay.local_images.push(LocalImageOverride {
        id: 99001,
        face_or_variant_specifier: None,
        print_group: text("english"),
        url: text("/local-assets/preview.webp"),
    });
    let (state, _, _) = assemble_active_state(&base, Some(&index), BASE, UNSIGNED, Some(&catalog), Some(overlay));
    assert_eq!(resolve_image_url(&preview, &state.library, &state.published), "/local-assets/preview.webp");
}

#[test]
fn missing_or_invalid_sources_leave_the_bundled_library() {
    let base = bundled();
    let (state, feed_error, catalog_error) = assemble_active_state(&base, None, BASE, UNSIGNED, None, None);
    assert!(feed_error.is_none() && catalog_error.is_none());
    assert!(state.published.is_empty());
    let mut index = feed(vec![single("a-preview", "33001", 99001, "Preview Card", 'a')]);
    index.schema = 9;
    let (state, feed_error, _) = assemble_active_state(&base, Some(&index), BASE, UNSIGNED, None, None);
    assert_eq!(feed_error, Some(LoadError::Invalid(ProxyIndexError::UnsupportedContract)));
    let english = state.library.libraries.get(&text("english")).expect("group");
    assert!(english.try_get_card(&CardId(text("33001"))).is_none());
}

#[test]
fn load_errors_have_messages() {
    assert_eq!(LoadError::DuplicateDynamicAlias.message(), "duplicate dynamic image alias");
    assert_eq!(LoadError::Invalid(ProxyIndexError::InvalidLanguage).message(), "invalid metadata language");
    assert_eq!(
        load_error_message(LoadError::Invalid(ProxyIndexError::UnparsableBaseUrl), "not a url", &[]),
        "relative URL without a base"
    );
    assert_eq!(
        load_error_message(LoadError::DuplicateDynamicAlias, BASE, &[]),
        "duplicate dynamic image alias"
    );
}

#[test]
fn card_identity_comes_from_aliases_not_titles() {
    let base = bundled();
    let index = feed(vec![single("a-reprint", "new-card", 30024, "Another Title", 'a')]);
    assert_eq!(load_proxy_index(&base, &index, BASE, UNSIGNED).err(), Some(LoadError::ConflictsWithExistingCard));
    let index = feed(vec![single("a-new", "new-card", 99100, "Conduit", 'a')]);
    let state = load_proxy_index(&base, &index, BASE, UNSIGNED).expect("loaded");
    let english = state.library.libraries.get(&text("english")).expect("group");
    assert_eq!(english.get_face_card(&printing_id(99100, None)).id, CardId(text("new-card")));
}
