use proxy_elev::assoc::KeySet;
use proxy_elev::library::UNAVAILABLE_SLOT_NAME;
use proxy_elev::print_file::AutoFaceKey;
use proxy_elev::runtime_library::{PrintListError, slot_available, title, validate_print_list};
use proxy_elev::{
    ActiveState, AlternateFaceMetadata, CardFacePrintingId, CardId, CardMetadata, FilledCardSlot, InsertId,
    InsertMetadata, Library, LocalImageOverride, MultiLibrary, PrintFile, PrintingMetadata, PublishedAssetIndex,
};

fn text(s: &str) -> String {
    s.to_string()
}

fn printing(id: u32, face: Option<usize>) -> CardFacePrintingId {
    CardFacePrintingId { id, face_or_variant_specifier: face, print_group: text("english") }
}

fn card(id: &str, name: &str, faces: AlternateFaceMetadata, printings: &[CardFacePrintingId]) -> CardMetadata {
    let mut set = KeySet::new();
    for p in printings {
        set.insert(p.clone());
    }
    CardMetadata { title: title(name), alternate_face_data: faces, id: CardId(text(id)), printings: set }
}

fn conduit() -> CardMetadata {
    card("conduit", "Conduit", AlternateFaceMetadata::Single, &[printing(30024, None), printing(26001, None)])
}

fn hoshiko() -> CardMetadata {
    card(
        "hoshiko",
        "Hoshiko Shiro: Untold Protagonist",
        AlternateFaceMetadata::Multiple(vec![title("Hoshiko Shiro: Mahou Shoujo")]),
        &[printing(30040, Some(1)), printing(30040, Some(2))],
    )
}

fn variants() -> CardMetadata {
    card(
        "variant",
        "Variant Example",
        AlternateFaceMetadata::Variants(3),
        &[printing(99003, Some(1)), printing(99003, Some(2)), printing(99003, Some(3))],
    )
}

fn state() -> ActiveState {
    let mut english = Library::new();
    for meta in [conduit(), hoshiko(), variants()] {
        for i in 0..meta.printings.len() {
            let p = meta.printings.at(i).clone();
            english.faces.insert(
                p.clone(),
                PrintingMetadata { id: p, card_id: meta.id.clone(), printing_name: text("Printing") },
            );
        }
        english.cards.insert(meta.id.clone(), meta);
    }
    let corp = InsertId { name: text("turn_structure_corp"), print_group: text("english") };
    let mut groups = KeySet::new();
    groups.insert(text("turn structure"));
    english.inserts.insert(corp.clone(), InsertMetadata { title: title("Corp Turn Steps"), id: corp, insert_groups: groups });
    let mut library = MultiLibrary::new();
    library.libraries.insert(text("english"), english);
    library.local_images.push(LocalImageOverride {
        id: 26001,
        face_or_variant_specifier: None,
        print_group: text("english"),
        url: text("/local-assets/conduit.webp"),
    });
    ActiveState { library, published: PublishedAssetIndex::default() }
}

fn slot(p: CardFacePrintingId, card: &str) -> FilledCardSlot {
    FilledCardSlot::Card { printing: p, card_id: Some(CardId(text(card))) }
}

fn uses(file: &PrintFile, variant: usize) -> Option<usize> {
    file.auto_faces().get(&AutoFaceKey { card_id: CardId(text("variant")), variant }).copied()
}

#[test]
fn single_card_adds_its_latest_printing() {
    let mut file = PrintFile::default();
    file.add_cards(&conduit());
    assert_eq!(file.all(), &[slot(printing(30024, None), "conduit")]);
}

#[test]
fn card_with_several_faces_adds_every_face() {
    let mut file = PrintFile::default();
    file.add_cards(&hoshiko());
    assert_eq!(file.len(), 2);
    assert_eq!(file.get(0), Some(&slot(printing(30040, Some(1)), "hoshiko")));
    assert_eq!(file.get(1), Some(&slot(printing(30040, Some(2)), "hoshiko")));
    assert_eq!(file.get(2), None);
}

#[test]
fn variants_rotate_through_the_least_used() {
    let mut file = PrintFile::default();
    let meta = variants();
    for _ in 0..4 {
        assert!(file.can_add_cards(&meta));
        file.add_cards(&meta);
    }
    let faces: Vec<_> = file
        .all()
        .iter()
        .map(|s| match s {
            FilledCardSlot::Card { printing, .. } => printing.face_or_variant_specifier,
            FilledCardSlot::Insert { .. } => None,
        })
        .collect();
    assert_eq!(faces, vec![Some(1), Some(2), Some(3), Some(1)]);
    assert_eq!(uses(&file, 1), Some(2));
    assert_eq!(uses(&file, 2), Some(1));
    assert_eq!(uses(&file, 3), Some(1));
}

#[test]
fn removing_a_variant_gives_its_use_back() {
    let state = state();
    let mut file = PrintFile::default();
    let meta = variants();
    file.add_cards(&meta);
    file.add_cards(&meta);
    assert_eq!(uses(&file, 2), Some(1));
    file.remove_card(1, &state);
    assert_eq!(file.len(), 1);
    assert_eq!(uses(&file, 2), Some(0));
    file.add_cards(&meta);
    assert_eq!(file.get(1), Some(&slot(printing(99003, Some(2)), "variant")));
}

#[test]
fn removing_past_the_end_changes_nothing() {
    let state = state();
    let mut file = PrintFile::default();
    file.add_cards(&conduit());
    file.remove_card(5, &state);
    assert_eq!(file.len(), 1);
}

#[test]
fn updating_a_slot_switches_the_printing_and_remembers_its_card() {
    let state = state();
    let mut file = PrintFile::default();
    let meta = variants();
    file.add_cards(&meta);
    file.update_card(0, printing(99003, Some(3)), &state);
    assert_eq!(file.get(0), Some(&slot(printing(99003, Some(3)), "variant")));
    assert_eq!(uses(&file, 1), Some(0));
    file.update_card(0, printing(12345, None), &state);
    assert_eq!(file.get(0), Some(&FilledCardSlot::Card { printing: printing(12345, None), card_id: None }));
}

#[test]
fn inserts_and_clearing() {
    let mut file = PrintFile::default();
    assert!(file.is_empty());
    file.add_insert(InsertId { name: text("turn_structure_corp"), print_group: text("english") });
    assert!(!file.is_empty());
    file.add_cards(&variants());
    file.clear();
    assert!(file.is_empty());
    assert_eq!(uses(&file, 1), None);
}

#[test]
fn card_without_the_needed_face_cannot_be_added() {
    let file = PrintFile::default();
    let broken = card(
        "broken",
        "Broken",
        AlternateFaceMetadata::Multiple(vec![title("Broken B")]),
        &[printing(1, Some(1))],
    );
    assert!(!file.can_add_cards(&broken));
    let empty = card("empty", "Empty", AlternateFaceMetadata::Single, &[]);
    assert!(!file.can_add_cards(&empty));
    assert!(file.can_add_cards(&hoshiko()));
}

#[test]
fn slot_names_follow_the_face() {
    let state = state();
    assert_eq!(slot(printing(30040, Some(1)), "hoshiko").name(&state), "Hoshiko Shiro: Untold Protagonist");
    assert_eq!(slot(printing(30040, Some(2)), "hoshiko").name(&state), "Hoshiko Shiro: Mahou Shoujo");
    assert_eq!(slot(printing(99003, Some(2)), "variant").name(&state), "Variant Example");
    let insert = FilledCardSlot::Insert { insert: InsertId { name: text("turn_structure_corp"), print_group: text("english") } };
    assert_eq!(insert.name(&state), "Corp Turn Steps");
}

#[test]
fn unavailable_slots_show_no_image_and_say_so() {
    let state = state();
    let gone = slot(printing(11111, None), "conduit");
    assert!(!gone.is_available(&state));
    assert_eq!(gone.name(&state), UNAVAILABLE_SLOT_NAME);
    assert_eq!(gone.image_url(&state), "");
    let reassigned = slot(printing(30024, None), "someone-else");
    assert!(!reassigned.is_available(&state));
    assert!(!slot_available(&reassigned, &state.library));
    let anonymous = FilledCardSlot::Card { printing: printing(30024, None), card_id: None };
    assert!(anonymous.is_available(&state));
}

#[test]
fn slot_images_prefer_local_overrides() {
    let state = state();
    let local = slot(printing(26001, None), "conduit");
    assert!(local.is_local_override(&state));
    assert_eq!(local.image_url(&state), "/local-assets/conduit.webp");
    let plain = slot(printing(30024, None), "conduit");
    assert!(!plain.is_local_override(&state));
    assert_eq!(
        plain.image_url(&state),
        "https://nro-public.s3.nl-ams.scw.cloud/nro/card-printings/v2/webp/english/card/30024.webp"
    );
}

#[test]
fn print_lists_must_be_non_empty_and_available() {
    let state = state();
    assert_eq!(validate_print_list(&[], &state.library), Err(PrintListError::Empty));
    let good = [slot(printing(30024, None), "conduit")];
    assert_eq!(validate_print_list(&good, &state.library), Ok(()));
    let bad = [slot(printing(30024, None), "conduit"), slot(printing(11111, None), "conduit")];
    assert_eq!(validate_print_list(&bad, &state.library), Err(PrintListError::Unavailable));
    assert_eq!(
        PrintListError::Unavailable.message(),
        "cannot print this selection: A saved printing is unavailable. Remove it and choose a current printing."
    );
    assert_eq!(PrintListError::Empty.message(), "add a card before printing");
}

#[test]
fn titles_keep_an_ascii_form() {
    let t = title("Hoshiko Shiro: Mahō Shōjo");
    assert_eq!(t.title, "Hoshiko Shiro: Mahō Shōjo");
    assert_eq!(t.stripped_title, "Hoshiko Shiro: Mah Shjo");
}
