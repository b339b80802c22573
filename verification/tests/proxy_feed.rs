use proxy_elev::proxy_consumer::{
    FaceKind, FaceMetadata, Label, PrintingMetadata, ProxyImage, ProxyIndex, ProxyIndexError, ProxyPrinting, UrlParts,
    check_metadata, check_proxy_index, feed_error_message, is_sha256, public_base_url, sha256, validate_metadata, validate_proxy_index,
    validate_public_base_url,
};

const BASE: &str = "https://assets.example.test";
const UNSIGNED: &[u8] = b"the feed without its revision";

fn text(s: &str) -> String {
    s.to_string()
}

fn digest(c: char) -> String {
    std::iter::repeat(c).take(64).collect()
}

fn face(id: &str, title: &str, selector: Option<u16>) -> FaceMetadata {
    FaceMetadata { id: text(id), title: text(title), selector }
}

fn image(face_id: &str, sha: &str) -> ProxyImage {
    ProxyImage {
        face_id: text(face_id),
        sha256: text(sha),
        bytes: 1234,
        width: 750,
        height: 1050,
        media_type: text("image/webp"),
        url: format!("{BASE}/assets/v1/sha256/{}/{}.webp", &sha[..2], sha),
    }
}

fn metadata(id: &str, card_id: &str, printing_id: u32, title: &str, kind: FaceKind, faces: Vec<FaceMetadata>) -> PrintingMetadata {
    PrintingMetadata {
        id: text(id),
        card_id: text(card_id),
        upstream_card_id: None,
        printing_id,
        print_group: text("english"),
        printing_name: text("Preview"),
        title: text(title),
        cycle: Label { id: text("future"), name: text("Future") },
        set: Label { id: text("preview"), name: text("Preview") },
        language: text("en"),
        face_kind: kind,
        faces,
    }
}

fn single(id: &str, card_id: &str, printing_id: u32, title: &str, sha: char) -> ProxyPrinting {
    let face_id = format!("{id}:front");
    ProxyPrinting {
        metadata: metadata(id, card_id, printing_id, title, FaceKind::Single, vec![face(&face_id, title, None)]),
        images: vec![image(&face_id, &digest(sha))],
    }
}

fn flip(id: &str, card_id: &str, printing_id: u32) -> ProxyPrinting {
    ProxyPrinting {
        metadata: metadata(
            id,
            card_id,
            printing_id,
            "Flip Example",
            FaceKind::Multiple,
            vec![face("flip:a", "Flip Example", Some(1)), face("flip:b", "Flip Example (B)", Some(2))],
        ),
        images: vec![image("flip:a", &digest('c')), image("flip:b", &digest('d'))],
    }
}

fn feed(printing: Vec<ProxyPrinting>) -> ProxyIndex {
    ProxyIndex {
        schema: 1,
        schema_url: format!("{BASE}/catalogs/v1/consumers/proxy/schema-1.json"),
        revision: sha256(UNSIGNED),
        profile: text("proxy-square-v1"),
        visibility: text("public"),
        printing,
    }
}

fn good_feed() -> ProxyIndex {
    feed(vec![single("a-preview", "33001", 99001, "Preview Card", 'a'), flip("b-flip", "33002", 99002)])
}

fn verdict(index: &ProxyIndex) -> Result<(), ProxyIndexError> {
    validate_proxy_index(index, BASE, UNSIGNED)
}

#[test]
fn sha256_is_lowercase_hex_of_the_digest() {
    assert_eq!(sha256(b""), "e3b0c44298fc1c149afbf4c8996fb92427ae41e4649b934ca495991b7852b855");
    assert_eq!(sha256(b"abc"), "ba7816bf8f01cfea414140de5dae2223b00361a396177a9cb410ff61f20015ad");
    assert!(is_sha256(&sha256(b"anything at all")));
}

#[test]
fn sha256_texts_are_sixty_four_lowercase_hex_digits() {
    assert!(is_sha256(&digest('0')));
    assert!(is_sha256(&digest('f')));
    assert!(!is_sha256(&digest('F')));
    assert!(!is_sha256(&digest('g')));
    assert!(!is_sha256(&"a".repeat(63)));
    assert!(!is_sha256(&"a".repeat(65)));
    assert!(!is_sha256(""));
}

#[test]
fn base_urls_must_be_plain_public_https() {
    assert_eq!(validate_public_base_url("https://assets.example.test///"), Ok(text(BASE)));
    assert_eq!(validate_public_base_url("https://assets.example.test/path/"), Ok(text("https://assets.example.test/path")));
    assert_eq!(validate_public_base_url("http://assets.example.test"), Err(ProxyIndexError::InvalidBaseUrl));
    assert_eq!(validate_public_base_url("https://user@assets.example.test"), Err(ProxyIndexError::InvalidBaseUrl));
    assert_eq!(validate_public_base_url("https://assets.example.test/?q=1"), Err(ProxyIndexError::InvalidBaseUrl));
    assert_eq!(validate_public_base_url("https://assets.example.test/#top"), Err(ProxyIndexError::InvalidBaseUrl));
    assert_eq!(validate_public_base_url("not a url"), Err(ProxyIndexError::UnparsableBaseUrl));
}

#[test]
fn parsed_url_parts_decide_the_base_url() {
    let parts = |scheme: &str, has_host: bool| UrlParts {
        scheme: text(scheme),
        has_host,
        username: String::new(),
        password: None,
        query: None,
        fragment: None,
    };
    assert_eq!(public_base_url("x", Some(parts("https", true))), Ok(text("x")));
    assert_eq!(public_base_url("x", Some(parts("https", false))), Err(ProxyIndexError::InvalidBaseUrl));
    assert_eq!(public_base_url("x", Some(parts("ftp", true))), Err(ProxyIndexError::InvalidBaseUrl));
    assert_eq!(public_base_url("x", None), Err(ProxyIndexError::UnparsableBaseUrl));
}

#[test]
fn well_formed_feed_is_accepted() {
    assert_eq!(verdict(&good_feed()), Ok(()));
    assert_eq!(validate_proxy_index(&good_feed(), "https://assets.example.test/", UNSIGNED), Ok(()));
}

#[test]
fn feed_with_bad_base_url_is_refused_first() {
    let mut index = good_feed();
    index.schema = 7;
    assert_eq!(validate_proxy_index(&index, "http://assets.example.test", UNSIGNED), Err(ProxyIndexError::InvalidBaseUrl));
}

#[test]
fn feed_contract_is_checked() {
    let mut index = good_feed();
    index.schema = 2;
    assert_eq!(verdict(&index), Err(ProxyIndexError::UnsupportedContract));
    let mut index = good_feed();
    index.profile = text("nro-rounded-v1");
    assert_eq!(verdict(&index), Err(ProxyIndexError::UnsupportedContract));
    let mut index = good_feed();
    index.visibility = text("private");
    assert_eq!(verdict(&index), Err(ProxyIndexError::UnsupportedContract));
    let mut index = good_feed();
    index.schema_url = text("https://elsewhere.test/schema.json");
    assert_eq!(verdict(&index), Err(ProxyIndexError::UnexpectedSchemaUrl));
}

#[test]
fn revision_must_be_the_digest_of_the_unsigned_feed() {
    let mut index = good_feed();
    index.revision = digest('0');
    assert_eq!(verdict(&index), Err(ProxyIndexError::RevisionMismatch));
    assert_eq!(validate_proxy_index(&good_feed(), BASE, b"another serialization"), Err(ProxyIndexError::RevisionMismatch));
}

#[test]
fn printings_must_be_ordered_by_identity() {
    let index = feed(vec![flip("b-flip", "33002", 99002), single("a-preview", "33001", 99001, "Preview Card", 'a')]);
    assert_eq!(verdict(&index), Err(ProxyIndexError::RevisionMismatch));
}

#[test]
fn metadata_texts_must_be_present_and_printable() {
    let mut index = good_feed();
    index.printing[0].metadata.printing_name = text("   ");
    assert_eq!(verdict(&index), Err(ProxyIndexError::EmptyOrControlField));
    let mut index = good_feed();
    index.printing[1].metadata.set.name = text("Bad\u{7}Name");
    assert_eq!(verdict(&index), Err(ProxyIndexError::EmptyOrControlField));
}

#[test]
fn metadata_numbers_identities_and_languages_are_checked() {
    let mut index = good_feed();
    index.printing[0].metadata.printing_id = 0;
    assert_eq!(verdict(&index), Err(ProxyIndexError::NonPositivePrinting));
    let mut index = good_feed();
    index.printing[0].metadata.upstream_card_id = Some(text(" \t"));
    assert_eq!(verdict(&index), Err(ProxyIndexError::EmptyUpstreamIdentity));
    let mut index = good_feed();
    index.printing[1].metadata.language = text("!!");
    assert_eq!(verdict(&index), Err(ProxyIndexError::InvalidLanguage));
    let index = feed(vec![
        single("a-preview", "33001", 99001, "Preview Card", 'a'),
        single("a-preview", "33003", 99003, "Other Card", 'b'),
    ]);
    assert_eq!(verdict(&index), Err(ProxyIndexError::DuplicateIdentity));
}

#[test]
fn one_card_has_one_description_per_language() {
    let index = feed(vec![
        single("a-preview", "33001", 99001, "Preview Card", 'a'),
        single("b-reprint", "33001", 99005, "Renamed Card", 'b'),
    ]);
    assert_eq!(verdict(&index), Err(ProxyIndexError::ConflictingCardMetadata));
    let index = feed(vec![
        single("a-preview", "33001", 99001, "Preview Card", 'a'),
        single("b-reprint", "33001", 99005, "Preview Card", 'b'),
    ]);
    assert_eq!(verdict(&index), Ok(()));
}

#[test]
fn faces_must_fit_the_face_kind() {
    let mut index = good_feed();
    index.printing[0].metadata.faces[0].selector = Some(1);
    assert_eq!(verdict(&index), Err(ProxyIndexError::SingleFaceShape));
    let mut index = good_feed();
    index.printing[1].metadata.faces.pop();
    index.printing[1].images.pop();
    assert_eq!(verdict(&index), Err(ProxyIndexError::TooFewFaces));
    let mut index = good_feed();
    index.printing[1].metadata.faces[1].selector = Some(3);
    assert_eq!(verdict(&index), Err(ProxyIndexError::BadSelectors));
    let mut index = good_feed();
    index.printing[1].metadata.faces[0].title = text("Another Title");
    assert_eq!(verdict(&index), Err(ProxyIndexError::FrontTitleMismatch));
}

#[test]
fn faces_and_aliases_must_be_unique() {
    let mut index = good_feed();
    index.printing[1].metadata.faces[1].id = text("flip:a");
    assert_eq!(verdict(&index), Err(ProxyIndexError::DuplicateFace));
    let mut index = good_feed();
    index.printing[1].metadata.faces[1].id = text(" ");
    assert_eq!(verdict(&index), Err(ProxyIndexError::EmptyFace));
    let index = feed(vec![
        single("a-preview", "33001", 99001, "Preview Card", 'a'),
        single("b-other", "33004", 99001, "Other Card", 'b'),
    ]);
    assert_eq!(verdict(&index), Err(ProxyIndexError::DuplicateAlias));
}

#[test]
fn images_must_be_complete_full_size_webps_at_immutable_urls() {
    let mut index = good_feed();
    index.printing[1].images.pop();
    assert_eq!(verdict(&index), Err(ProxyIndexError::IncompleteImages));
    let mut index = good_feed();
    index.printing[1].images.swap(0, 1);
    assert_eq!(verdict(&index), Err(ProxyIndexError::ImageFaceMismatch));
    let mut index = good_feed();
    index.printing[0].images[0].width = 700;
    assert_eq!(verdict(&index), Err(ProxyIndexError::InvalidImage));
    let mut index = good_feed();
    index.printing[0].images[0].bytes = 0;
    assert_eq!(verdict(&index), Err(ProxyIndexError::InvalidImage));
    let mut index = good_feed();
    index.printing[0].images[0].sha256 = text("not a digest");
    assert_eq!(verdict(&index), Err(ProxyIndexError::InvalidImage));
    let mut index = good_feed();
    index.printing[0].images[0].url = format!("{BASE}/assets/v1/sha256/{}.webp", digest('a'));
    assert_eq!(verdict(&index), Err(ProxyIndexError::UnexpectedImageUrl));
}

#[test]
fn metadata_rules_can_be_checked_with_given_language_verdicts() {
    let index = good_feed();
    assert_eq!(check_metadata(&index.printing, &[true, true]), Ok(()));
    assert_eq!(check_metadata(&index.printing, &[true, false]), Err(ProxyIndexError::InvalidLanguage));
    assert_eq!(validate_metadata(&index.printing), Ok(()));
}

#[test]
fn index_can_be_checked_against_a_given_revision() {
    let index = good_feed();
    assert_eq!(check_proxy_index(&index, BASE, &sha256(UNSIGNED), &[true, true]), Ok(()));
    assert_eq!(
        check_proxy_index(&index, BASE, &digest('1'), &[true, true]),
        Err(ProxyIndexError::RevisionMismatch)
    );
    assert_eq!(
        check_proxy_index(&index, "https://elsewhere.test", &sha256(UNSIGNED), &[true, true]),
        Err(ProxyIndexError::UnexpectedSchemaUrl)
    );
}

#[test]
fn every_error_has_a_message() {
    assert_eq!(ProxyIndexError::RevisionMismatch.message(), "proxy index revision or ordering mismatch");
    assert_eq!(ProxyIndexError::DuplicateAlias.message(), "duplicate public printing alias");
    assert_eq!(
        ProxyIndexError::UnexpectedImageUrl.message(),
        "proxy image URL is not the expected immutable public asset"
    );
}

#[test]
fn refused_feeds_show_the_parsers_reason() {
    assert_eq!(feed_error_message(ProxyIndexError::UnparsableBaseUrl, "not a url", &[]), "relative URL without a base");
    let mut index = good_feed();
    index.printing[1].metadata.language = text("!!");
    assert_eq!(
        feed_error_message(ProxyIndexError::InvalidLanguage, BASE, &index.printing),
        "invalid metadata language: Parser error: The given language subtag is invalid"
    );
    assert_eq!(
        feed_error_message(ProxyIndexError::InvalidLanguage, BASE, &good_feed().printing),
        "invalid metadata language"
    );
    assert_eq!(
        feed_error_message(ProxyIndexError::RevisionMismatch, BASE, &index.printing),
        "proxy index revision or ordering mismatch"
    );
}
