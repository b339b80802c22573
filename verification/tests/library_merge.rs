use proxy_elev::assoc::{AssocList, KeySet};
use proxy_elev::runtime_library::title;
use proxy_elev::{
    AlternateFaceMetadata, CardFacePrintingId, CardId, CardImage, CardMetadata, InsertId, InsertMetadata, Library,
    LocalImageOverride, MultiLibrary, PrintingMetadata, PublishedAssetIndex,
};

fn text(s: &str) -> String {
    s.to_string()
}

fn printing(id: u32) -> CardFacePrintingId {
    CardFacePrintingId { id, face_or_variant_specifier: None, print_group: text("english") }
}

fn library_with(card_id: &str, name: &str, ids: &[u32]) -> Library {
    let mut lib = Library::new();
    let mut set = KeySet::new();
    for id in ids {
        set.insert(printing(*id));
        lib.faces.insert(
            printing(*id),
            PrintingMetadata { id: printing(*id), card_id: CardId(text(card_id)), printing_name: format!("P{id}") },
        );
    }
    lib.cards.insert(
        CardId(text(card_id)),
        CardMetadata { title: title(name), alternate_face_data: AlternateFaceMetadata::Single, id: CardId(text(card_id)), printings: set },
    );
    lib
}

fn local(id: u32, url: &str) -> LocalImageOverride {
    LocalImageOverride { id, face_or_variant_specifier: None, print_group: text("english"), url: text(url) }
}

#[test]
fn merging_adds_printings_and_keeps_existing_faces() {
    let mut base = library_with("conduit", "Conduit", &[30024]);
    let mut other = library_with("conduit", "Conduit (renamed)", &[26001]);
    other.faces.insert(
        printing(30024),
        PrintingMetadata { id: printing(30024), card_id: CardId(text("elsewhere")), printing_name: text("X") },
    );
    base.merge(&other);
    let card = base.get_card(&CardId(text("conduit")));
    assert_eq!(card.title.title, "Conduit");
    assert!(card.printings.contains(&printing(30024)));
    assert!(card.printings.contains(&printing(26001)));
    assert_eq!(base.get_face_card(&printing(30024)).id, CardId(text("conduit")));
    assert_eq!(base.faces.get(&printing(30024)).map(|p| p.printing_name.clone()), Some(text("P30024")));
    assert!(base.faces.contains_key(&printing(26001)));
}

#[test]
fn merging_a_library_into_itself_changes_nothing() {
    let mut base = library_with("conduit", "Conduit", &[30024, 26001]);
    let copy = library_with("conduit", "Conduit", &[30024, 26001]);
    base.merge(&copy);
    assert_eq!(base.cards.len(), 1);
    assert_eq!(base.faces.len(), 2);
    assert_eq!(base.get_card(&CardId(text("conduit"))).printings.len(), 2);
}

#[test]
fn overlay_adds_groups_names_remappings_and_replaces_local_images() {
    let mut library = MultiLibrary::new();
    library.libraries.insert(text("english"), library_with("conduit", "Conduit", &[30024]));
    library.collection_names.insert(text("english"), text("NSG English"));
    library.local_images.push(local(30024, "/old.webp"));
    library.local_images.push(local(1, "/one.webp"));

    let mut overlay = MultiLibrary::new();
    overlay.libraries.insert(text("english"), library_with("preview", "Preview", &[99001]));
    overlay.libraries.insert(text("local"), library_with("mine", "Mine", &[5]));
    overlay.collection_names.insert(text("local"), text("Local"));
    overlay.nrdb_remap.insert(32003, 33022);
    overlay.local_images.push(local(30024, "/new.webp"));
    library.merge_overlay(overlay);

    let english = library.libraries.get(&text("english")).expect("english");
    assert!(english.try_get_card(&CardId(text("conduit"))).is_some());
    assert!(english.try_get_card(&CardId(text("preview"))).is_some());
    assert!(library.libraries.contains_key(&text("local")));
    assert_eq!(library.collection_names.get(&text("local")), Some(&text("Local")));
    assert_eq!(library.nrdb_remap.get(&32003), Some(&33022));
    assert_eq!(library.local_image_url(&printing(30024)), Some("/new.webp"));
    assert_eq!(library.local_image_url(&printing(1)), Some("/one.webp"));
    assert_eq!(library.local_images.iter().filter(|i| i.id == 30024).count(), 1);
    assert_eq!(library.local_image_url(&printing(2)), None);
}

#[test]
fn extending_published_images_prefers_the_overrides() {
    let mut general_faces = AssocList::new();
    general_faces.insert(printing(30024), text("https://general.test/30024.webp"));
    general_faces.insert(printing(1), text("https://general.test/1.webp"));
    let mut feed_faces = AssocList::new();
    feed_faces.insert(printing(30024), text("https://feed.test/30024.webp"));
    let mut general = PublishedAssetIndex::from_parts(general_faces, AssocList::new());
    let feed = PublishedAssetIndex::from_parts(feed_faces, AssocList::new());
    assert!(!general.is_empty());
    general.extend(feed);
    assert_eq!(general.card_face_count(), 2);
    assert_eq!(general.insert_count(), 0);
    assert_eq!(general.image_url(&CardImage::CardFacePrinting(printing(30024))), Some("https://feed.test/30024.webp"));
    assert_eq!(general.image_url(&CardImage::CardFacePrinting(printing(1))), Some("https://general.test/1.webp"));
    assert!(PublishedAssetIndex::default().is_empty());
}

#[test]
fn inserts_can_be_looked_up() {
    let mut lib = Library::new();
    let id = InsertId { name: text("turn_structure_runner"), print_group: text("english") };
    lib.inserts.insert(id.clone(), InsertMetadata { title: title("Runner Turn Steps"), id: id.clone(), insert_groups: KeySet::new() });
    assert_eq!(lib.get_insert(&id).title.title, "Runner Turn Steps");
    assert_eq!(CardImage::Insert(id).image_url(), "https://nro-public.s3.nl-ams.scw.cloud/nro/card-printings/v2/webp/english/insert/turn_structure_runner.webp");
}
