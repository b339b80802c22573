use proxy_elev::assoc::{AssocList, KeySet};
use proxy_elev::client::{
    HaystackEntry, JnetLine, NrdbFailure, NrdbStep, choose_entry, face_choices, find_card_by_title,
    find_card_with_printing, first_entries, jnet_plan, nrdb_api_url, nrdb_deck_api_url, nrdb_number, nrdb_plan,
    page_slot, search_haystack, sheet_counts, tts_layout, with_face,
};
use proxy_elev::print_config::slot_cell;
use proxy_elev::runtime_library::title;
use proxy_elev::text::{parse_usize, split_once_char, text_lines, trim_str};
use proxy_elev::{
    AlternateFaceMetadata, BleedMode, CardFacePrintingId, CardId, CardMetadata, CutIndicator, FilledCardSlot, InsertId,
    InsertMetadata, Library, MultiLibrary, PrintConfig, PrintFile, PrintSize, PrintingMetadata,
};

fn text(s: &str) -> String {
    s.to_string()
}

fn printing(id: u32, face: Option<usize>) -> CardFacePrintingId {
    CardFacePrintingId { id, face_or_variant_specifier: face, print_group: text("english") }
}

fn english() -> Library {
    let mut lib = Library::new();
    let cards = [
        ("conduit", "Conduit", AlternateFaceMetadata::Single, vec![printing(30024, None)]),
        ("hoshiko", "Hoshiko Shiro: Untold Protagonist", AlternateFaceMetadata::Multiple(vec![title("Hoshiko Shiro: Mahou Shoujo")]), vec![printing(30040, Some(1)), printing(30040, Some(2))]),
        ("variant", "Variant Example", AlternateFaceMetadata::Variants(3), vec![printing(99003, Some(1)), printing(99003, Some(2)), printing(99003, Some(3))]),
        ("sure-gamble", "Süre Gamble", AlternateFaceMetadata::Single, vec![printing(30030, None)]),
    ];
    for (id, name, faces, printings) in cards {
        let mut set = KeySet::new();
        for p in &printings {
            set.insert(p.clone());
            lib.faces.insert(p.clone(), PrintingMetadata { id: p.clone(), card_id: CardId(text(id)), printing_name: text("P") });
        }
        lib.cards.insert(CardId(text(id)), CardMetadata { title: title(name), alternate_face_data: faces, id: CardId(text(id)), printings: set });
    }
    for (name, shown, group) in [("turn_structure_corp", "Corp Turn Steps", "turn structure"), ("turn_structure_runner", "Runner Turn Steps", "turn structure")] {
        let id = InsertId { name: text(name), print_group: text("english") };
        let mut groups = KeySet::new();
        groups.insert(text(group));
        lib.inserts.insert(id.clone(), InsertMetadata { title: title(shown), id, insert_groups: groups });
    }
    lib
}

fn multi() -> MultiLibrary {
    let mut library = MultiLibrary::new();
    library.libraries.insert(text("english"), english());
    library.nrdb_remap.insert(26030, 30030);
    library
}

#[test]
fn haystack_holds_every_title_and_group() {
    let haystack = search_haystack(&english());
    let texts = haystack.texts();
    for wanted in ["Conduit", "Hoshiko Shiro: Untold Protagonist", "Süre Gamble", "Sre Gamble", "Corp Turn Steps", "turn structure"] {
        assert!(texts.iter().any(|t| t == wanted), "missing {wanted}");
    }
    assert_eq!(haystack.entry(&text("Sre Gamble")), Some(&HaystackEntry::Card(CardId(text("sure-gamble")))));
    assert_eq!(haystack.entry(&text("turn structure")), Some(&HaystackEntry::InsertGroup(text("turn structure"))));
    assert_eq!(haystack.entry(&text("nothing")), None);
}

#[test]
fn search_finds_distinct_entries_best_first() {
    let haystack = search_haystack(&english());
    let found = haystack.search("conduit");
    assert_eq!(found.first(), Some(&HaystackEntry::Card(CardId(text("conduit")))));
    let found = haystack.search("hoshiko");
    assert_eq!(found, vec![HaystackEntry::Card(CardId(text("hoshiko")))]);
    assert!(haystack.search("").len() <= 5);
}

#[test]
fn first_entries_skip_repeats_and_stop_at_the_limit() {
    let mut mappings = AssocList::new();
    for (t, card) in [("a", "x"), ("b", "x"), ("c", "y"), ("d", "z")] {
        mappings.insert(text(t), HaystackEntry::Card(CardId(text(card))));
    }
    let ranked = vec![text("a"), text("b"), text("c"), text("d")];
    let card = |c: &str| HaystackEntry::Card(CardId(text(c)));
    assert_eq!(first_entries(&ranked, &mappings, 5), vec![card("x"), card("y"), card("z")]);
    assert_eq!(first_entries(&ranked, &mappings, 2), vec![card("x"), card("y")]);
}

#[test]
fn choosing_entries_adds_to_the_print_list() {
    let library = english();
    let mut file = PrintFile::default();
    choose_entry(&mut file, &library, &HaystackEntry::Card(CardId(text("hoshiko"))));
    assert_eq!(file.len(), 2);
    choose_entry(&mut file, &library, &HaystackEntry::Insert(InsertId { name: text("x"), print_group: text("english") }));
    assert_eq!(file.len(), 3);
    choose_entry(&mut file, &library, &HaystackEntry::InsertGroup(text("turn structure")));
    assert_eq!(file.len(), 5);
    assert!(matches!(file.get(4), Some(FilledCardSlot::Insert { .. })));
}

#[test]
fn sheet_counts_and_page_slots() {
    assert_eq!(sheet_counts(0), (0, 0));
    assert_eq!(sheet_counts(9), (1, 9));
    assert_eq!(sheet_counts(10), (2, 1));
    assert_eq!(sheet_counts(18), (2, 9));
    assert_eq!(page_slot(0), (0, 0));
    assert_eq!(page_slot(8), (0, 8));
    assert_eq!(page_slot(9), (1, 0));
    assert_eq!(slot_cell(0), (0, 2));
    assert_eq!(slot_cell(4), (1, 1));
    assert_eq!(slot_cell(8), (2, 0));
}

#[test]
fn tts_layout_fills_the_last_row_with_backs() {
    let layout = tts_layout(12);
    assert_eq!((layout.width, layout.height), (4050, 2 * 567));
    assert_eq!(layout.cards.len(), 12);
    assert_eq!(layout.cards[11], (405, 567));
    assert_eq!(layout.backs, (2..10).map(|c| (c * 405, 567)).collect::<Vec<_>>());
    let full = tts_layout(10);
    assert_eq!(full.height, 2 * 567);
    assert_eq!(full.backs, (0..10).map(|c| (c * 405, 567)).collect::<Vec<_>>());
    let empty = tts_layout(0);
    assert_eq!(empty.height, 567);
    assert!(empty.cards.is_empty());
    assert_eq!(empty.backs.len(), 9);
    let many = tts_layout(100);
    assert_eq!(many.cards.len(), 69);
    assert_eq!(many.height, 11 * 567);
    assert_eq!(many.backs.first(), Some(&(9 * 405, 6 * 567)));
}

#[test]
fn face_choices_of_saved_slots() {
    let library = multi();
    let flip = FilledCardSlot::Card { printing: printing(30040, Some(2)), card_id: None };
    assert_eq!(face_choices(&library, &flip), Some((2, 2)));
    let variant = FilledCardSlot::Card { printing: printing(99003, Some(1)), card_id: None };
    assert_eq!(face_choices(&library, &variant), Some((1, 3)));
    let single = FilledCardSlot::Card { printing: printing(30024, None), card_id: None };
    assert_eq!(face_choices(&library, &single), None);
    assert_eq!(with_face(&printing(99003, Some(1)), 3), printing(99003, Some(3)));
}

#[test]
fn jnet_lists_are_read_line_by_line() {
    let plan = jnet_plan(&english(), "3 Conduit\r\n1 Sre Gamble\nnonsense\nx Conduit\n2 Unknown Card\n");
    assert_eq!(
        plan,
        vec![
            JnetLine::Add { card: CardId(text("conduit")), count: 3 },
            JnetLine::Add { card: CardId(text("sure-gamble")), count: 1 },
            JnetLine::InvalidLine(text("nonsense")),
            JnetLine::InvalidNumber(text("x")),
            JnetLine::NotFound(text("Unknown Card")),
        ]
    );
    assert!(jnet_plan(&english(), "").is_empty());
}

#[test]
fn nrdb_lists_map_numbers_to_cards() {
    let library = multi();
    let group = english();
    let cards = vec![(text("30024"), Some(3)), (text("26030"), Some(1)), (text("11111"), Some(2)), (text("x"), Some(1)), (text("30024"), Some(1))];
    let (steps, failure) = nrdb_plan(&library, &group, &cards);
    assert_eq!(
        steps,
        vec![
            NrdbStep::Add { card: CardId(text("conduit")), count: 3 },
            NrdbStep::Add { card: CardId(text("sure-gamble")), count: 1 },
            NrdbStep::Missing(11111),
        ]
    );
    assert_eq!(failure, Some(NrdbFailure::KeyNotNumber));
    let (_, failure) = nrdb_plan(&library, &group, &vec![(text("30024"), None)]);
    assert_eq!(failure, Some(NrdbFailure::CountNotNumber));
    assert_eq!(nrdb_number(&library, "26030"), Some(30030));
    assert_eq!(nrdb_number(&library, "30024"), Some(30024));
    assert_eq!(nrdb_number(&library, "thirty"), None);
    assert_eq!(find_card_with_printing(&group, 30040), Some(&CardId(text("hoshiko"))));
    assert_eq!(find_card_by_title(&group, "Conduit"), Some(&CardId(text("conduit"))));
    assert_eq!(find_card_by_title(&group, "Nothing"), None);
}

#[test]
fn nrdb_links_name_the_api_address() {
    assert_eq!(
        nrdb_deck_api_url("https://netrunnerdb.com/en/deck/view/0a1b-2c3d"),
        Some(text("https://netrunnerdb.com/api/2.0/public/deck/0a1b-2c3d"))
    );
    assert_eq!(
        nrdb_deck_api_url("https://netrunnerdb.com/en/decklist/abc123/some-name"),
        Some(text("https://netrunnerdb.com/api/2.0/public/decklist/abc123"))
    );
    assert_eq!(nrdb_deck_api_url("https://example.test/nothing"), None);
    assert_eq!(nrdb_api_url(None, Some("x")), Some(text("https://netrunnerdb.com/api/2.0/public/decklist/x")));
    assert_eq!(nrdb_api_url(None, None), None);
}

#[test]
fn nrdb_links_take_the_leftmost_longest_identity() {
    assert_eq!(
        nrdb_deck_api_url("deck/view/XYZ then deck/view/ab-12Q"),
        Some(text("https://netrunnerdb.com/api/2.0/public/deck/ab-12"))
    );
    assert_eq!(nrdb_deck_api_url("https://netrunnerdb.com/en/decklist/abc123"), None);
    assert_eq!(
        nrdb_deck_api_url("decklist/ab?x decklist/c0ffee/name"),
        Some(text("https://netrunnerdb.com/api/2.0/public/decklist/c0ffee"))
    );
    assert_eq!(
        nrdb_deck_api_url("decklist/11/ and deck/view/22"),
        Some(text("https://netrunnerdb.com/api/2.0/public/deck/22"))
    );
}

#[test]
fn text_helpers_behave_like_std() {
    assert_eq!(trim_str("  a b \t"), "a b");
    assert_eq!(trim_str(" \n "), "");
    assert_eq!(split_once_char("3 Sure Gamble", ' '), Some(("3", "Sure Gamble")));
    assert_eq!(split_once_char("none", ' '), None);
    assert_eq!(parse_usize("+42"), Some(42));
    assert_eq!(parse_usize("-1"), None);
    assert_eq!(parse_usize(""), None);
    assert_eq!(text_lines("a\r\nb\n\nc\r"), vec!["a", "b", "", "c\r"]);
    assert_eq!(text_lines("a\n"), vec!["a"]);
}

#[test]
fn print_settings_have_labels_and_defaults() {
    let config = PrintConfig::default();
    assert_eq!(config.print_size, PrintSize::A4);
    assert_eq!(config.cut_indicator, CutIndicator::Lines);
    assert_eq!(config.bleed_mode, BleedMode::Off);
    assert_eq!(PrintSize::UsLetter.label(), "US Letter");
    assert_eq!(CutIndicator::Off.label(), "None");
    assert_eq!(BleedMode::Medium.label(), "Medium");
    assert_eq!(BleedMode::Off.label(), "None");
}
