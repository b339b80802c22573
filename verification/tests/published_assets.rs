use proxy_elev::assoc::{AssocList, KeySet};
use proxy_elev::published::{
    CatalogError, PublishedAsset, PublishedAssetCatalog, PublishedFace, PublishedInsert, PublishedPrinting,
    print_group_for_language, published_insert_name,
};
use proxy_elev::{
    AlternateFaceMetadata, CardFacePrintingId, CardId, CardImage, CardMetadata, InsertId, InsertMetadata, Library,
    LocalImageOverride, MultiLibrary, PrintingMetadata, Title, published_asset_index, resolve_image_url,
};

const CONDUIT_URL: &str = "https://assets.example.test/conduit.webp";
const CORP_TURN_STEPS_URL: &str = "https://assets.example.test/corp-turn-steps.webp";

fn text(s: &str) -> String {
    s.to_string()
}

fn title(s: &str) -> Title {
    Title { title: text(s), stripped_title: s.chars().filter(char::is_ascii).collect() }
}

fn conduit() -> CardFacePrintingId {
    CardFacePrintingId { id: 30024, face_or_variant_specifier: None, print_group: text("english") }
}

/// The part of the bundled manifest that the catalogue below speaks of.
fn manifest() -> MultiLibrary {
    let mut english = Library::new();
    let mut printings = KeySet::new();
    printings.insert(conduit());
    english.cards.insert(
        CardId(text("conduit")),
        CardMetadata {
            title: title("Conduit"),
            alternate_face_data: AlternateFaceMetadata::Single,
            id: CardId(text("conduit")),
            printings,
        },
    );
    english.faces.insert(
        conduit(),
        PrintingMetadata { id: conduit(), card_id: CardId(text("conduit")), printing_name: text("System Gateway") },
    );
    let corp_steps = InsertId { name: text("turn_structure_corp"), print_group: text("english") };
    english.inserts.insert(
        corp_steps.clone(),
        InsertMetadata { title: title("Corp Turn Steps"), id: corp_steps, insert_groups: KeySet::new() },
    );
    let mut library = MultiLibrary::new();
    library.libraries.insert(text("english"), english);
    library.collection_names.insert(text("english"), text("NSG English"));
    library
}

fn asset(profile: &str, rendition: &str, format: &str, catalog: &str, url: &str) -> PublishedAsset {
    PublishedAsset {
        profile: text(profile),
        rendition: text(rendition),
        format: text(format),
        catalogs: vec![text(catalog)],
        url: text(url),
    }
}

fn printing(external: Option<&str>, language: &str, front: &str) -> PublishedPrinting {
    PublishedPrinting {
        external_printing_id: external.map(text),
        external_front_face_index: None,
        external_back_face_index: None,
        language: text(language),
        art_kind: text("official"),
        publisher: text("nsg"),
        state: text("released"),
        front_face_id: text(front),
        back_face_id: None,
    }
}

fn published_catalog() -> PublishedAssetCatalog {
    PublishedAssetCatalog {
        schema: 1,
        face: vec![
            PublishedFace {
                id: text("nsg:system_gateway:30024:conduit:front"),
                asset: vec![
                    asset("proxy-square-v1", "full", "png", "proxy", "https://assets.example.test/conduit.png"),
                    asset("proxy-square-v1", "full", "webp", "proxy", CONDUIT_URL),
                    asset(
                        "nro-rounded-v1",
                        "thumbnail",
                        "webp",
                        "nro",
                        "https://assets.example.test/conduit-thumb.webp",
                    ),
                ],
            },
            PublishedFace {
                id: text("nsg:insert:corp_turn_steps:front"),
                asset: vec![asset("proxy-square-v1", "full", "webp", "proxy", CORP_TURN_STEPS_URL)],
            },
        ],
        printing: vec![printing(Some("30024"), "en", "nsg:system_gateway:30024:conduit:front")],
        insert: vec![PublishedInsert {
            id: text("nsg:corp_turn_steps"),
            external_insert_id: None,
            language: text("en"),
            state: text("released"),
            front_face_id: text("nsg:insert:corp_turn_steps:front"),
        }],
    }
}

#[test]
fn public_catalog_maps_cards_and_inserts_to_proxy_webps() {
    let library = manifest();
    let published = published_asset_index(&published_catalog(), &library).expect("published assets");
    assert_eq!(published.card_face_count(), 1);
    assert_eq!(published.insert_count(), 1);
    assert_eq!(published.image_url(&CardImage::CardFacePrinting(conduit())), Some(CONDUIT_URL));
    assert_eq!(
        published.image_url(&CardImage::Insert(InsertId {
            name: "turn_structure_corp".to_string(),
            print_group: "english".to_string(),
        })),
        Some(CORP_TURN_STEPS_URL)
    );
}

#[test]
fn actual_local_images_take_precedence_over_published_assets() {
    let mut library = manifest();
    let published = published_asset_index(&published_catalog(), &library).expect("published assets");
    let existing = LocalImageOverride {
        id: 30024,
        face_or_variant_specifier: None,
        print_group: "english".to_string(),
        url: CONDUIT_URL.to_string(),
    };
    library.local_images.push(existing.clone());
    let local_url = "/local-assets/conduit.webp";
    let mut overlay = MultiLibrary::new();
    overlay.local_images.push(LocalImageOverride { url: local_url.to_string(), ..existing });
    library.merge_overlay(overlay);

    assert_eq!(library.local_image_url(&conduit()), Some(local_url));
    assert_eq!(resolve_image_url(&CardImage::CardFacePrinting(conduit()), &library, &published), local_url);
    assert_eq!(
        library
            .local_images
            .iter()
            .filter(|image| image.id == 30024 && image.print_group == "english")
            .count(),
        1
    );
}

#[test]
fn published_image_wins_over_legacy_url_but_not_over_local_override() {
    let library = manifest();
    let published = published_asset_index(&published_catalog(), &library).expect("published assets");
    assert_eq!(resolve_image_url(&CardImage::CardFacePrinting(conduit()), &library, &published), CONDUIT_URL);
    let unknown = CardFacePrintingId { id: 1, face_or_variant_specifier: Some(2), print_group: text("english") };
    assert_eq!(
        resolve_image_url(&CardImage::CardFacePrinting(unknown), &library, &published),
        "https://nro-public.s3.nl-ams.scw.cloud/nro/card-printings/v2/webp/english/card/1.2.webp"
    );
}

#[test]
fn catalogue_with_other_schema_is_refused() {
    let mut catalog = published_catalog();
    catalog.schema = 2;
    assert!(matches!(published_asset_index(&catalog, &manifest()), Err(CatalogError::UnsupportedSchema)));
}

#[test]
fn conflicting_proxy_webps_of_one_face_are_refused() {
    let mut catalog = published_catalog();
    catalog.face[0].asset.push(asset("proxy-square-v1", "full", "webp", "proxy", "https://other.test/x.webp"));
    match published_asset_index(&catalog, &manifest()) {
        Err(CatalogError::ConflictingWebps(face)) => assert_eq!(face, "nsg:system_gateway:30024:conduit:front"),
        other => panic!("unexpected {other:?}"),
    }
}

#[test]
fn plain_http_proxy_webp_is_refused() {
    let mut catalog = published_catalog();
    catalog.face[1].asset[0].url = text("http://assets.example.test/corp.webp");
    match published_asset_index(&catalog, &manifest()) {
        Err(CatalogError::NonHttpsUrl(face)) => assert_eq!(face, "nsg:insert:corp_turn_steps:front"),
        other => panic!("unexpected {other:?}"),
    }
}

#[test]
fn repeated_face_is_refused() {
    let mut catalog = published_catalog();
    let again = PublishedFace {
        id: text("nsg:insert:corp_turn_steps:front"),
        asset: vec![asset("proxy-square-v1", "full", "webp", "proxy", CORP_TURN_STEPS_URL)],
    };
    catalog.face.push(again);
    assert!(matches!(published_asset_index(&catalog, &manifest()), Err(CatalogError::RepeatedFace(_))));
}

#[test]
fn non_numeric_printing_number_is_refused() {
    let mut catalog = published_catalog();
    catalog.printing.push(printing(Some("30x24"), "en", "nsg:system_gateway:30024:conduit:front"));
    match published_asset_index(&catalog, &manifest()) {
        Err(CatalogError::NonNumericPrintingId(id)) => assert_eq!(id, "30x24"),
        other => panic!("unexpected {other:?}"),
    }
}

#[test]
fn printing_mapped_to_two_urls_is_refused() {
    let mut catalog = published_catalog();
    catalog.face.push(PublishedFace {
        id: text("second-face"),
        asset: vec![asset("proxy-square-v1", "full", "webp", "proxy", "https://assets.example.test/other.webp")],
    });
    catalog.printing.push(printing(Some("+30024"), "en", "second-face"));
    assert!(matches!(
        published_asset_index(&catalog, &manifest()),
        Err(CatalogError::ConflictingPrintingUrls(30024))
    ));
}

#[test]
fn insert_mapped_to_two_urls_is_refused() {
    let mut catalog = published_catalog();
    catalog.face.push(PublishedFace {
        id: text("other-insert-face"),
        asset: vec![asset("proxy-square-v1", "full", "webp", "proxy", "https://assets.example.test/other.webp")],
    });
    catalog.insert.push(PublishedInsert {
        id: text("x"),
        external_insert_id: Some(text("turn_structure_corp")),
        language: text("en"),
        state: text("released"),
        front_face_id: text("other-insert-face"),
    });
    match published_asset_index(&catalog, &manifest()) {
        Err(CatalogError::ConflictingInsertUrls(name)) => assert_eq!(name, "turn_structure_corp"),
        other => panic!("unexpected {other:?}"),
    }
}

#[test]
fn unknown_unreleased_and_foreign_entries_are_skipped() {
    let mut catalog = published_catalog();
    catalog.printing.push(printing(Some("99999"), "en", "nsg:system_gateway:30024:conduit:front"));
    catalog.printing.push(printing(Some("30024"), "xx", "nsg:system_gateway:30024:conduit:front"));
    catalog.printing.push(printing(None, "en", "nsg:system_gateway:30024:conduit:front"));
    let mut unreleased = printing(Some("not a number"), "en", "nsg:system_gateway:30024:conduit:front");
    unreleased.state = text("draft");
    catalog.printing.push(unreleased);
    let published = published_asset_index(&catalog, &manifest()).expect("published assets");
    assert_eq!(published.card_face_count(), 1);
    assert_eq!(published.insert_count(), 1);
}

#[test]
fn catalogue_languages_map_to_print_groups() {
    assert_eq!(print_group_for_language("en"), Some("english"));
    assert_eq!(print_group_for_language("es"), Some("spanish"));
    assert_eq!(print_group_for_language("fr"), Some("french"));
    assert_eq!(print_group_for_language("de"), Some("german"));
    assert_eq!(print_group_for_language("it"), Some("italian"));
    assert_eq!(print_group_for_language("ja"), Some("japanese"));
    assert_eq!(print_group_for_language("ko"), Some("korean"));
    assert_eq!(print_group_for_language("pt"), None);
}

#[test]
fn insert_names_come_from_the_catalogue_identity() {
    let mut insert = PublishedInsert {
        id: text("nsg:corp_turn_steps"),
        external_insert_id: None,
        language: text("en"),
        state: text("released"),
        front_face_id: text("f"),
    };
    assert_eq!(published_insert_name(&insert), Some("turn_structure_corp"));
    insert.id = text("nsg:runner_turn_steps");
    assert_eq!(published_insert_name(&insert), Some("turn_structure_runner"));
    insert.id = text("plain");
    assert_eq!(published_insert_name(&insert), Some("plain"));
    insert.external_insert_id = Some(text("explicit"));
    assert_eq!(published_insert_name(&insert), Some("explicit"));
}

#[test]
fn card_and_insert_legacy_urls() {
    let face = CardFacePrintingId { id: 30024, face_or_variant_specifier: Some(2), print_group: text("english") };
    assert_eq!(
        face.image_url(),
        "https://nro-public.s3.nl-ams.scw.cloud/nro/card-printings/v2/webp/english/card/30024.2.webp"
    );
    let insert = InsertId { name: text("turn_structure_corp"), print_group: text("english") };
    assert_eq!(
        insert.image_url(),
        "https://nro-public.s3.nl-ams.scw.cloud/nro/card-printings/v2/webp/english/insert/turn_structure_corp.webp"
    );
    let _ = AssocList::<String, String>::new();
}
