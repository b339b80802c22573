//! The validated public card feed.  This module never reads private storage or
//! source data.

use vstd::prelude::*;
use sha2::Digest;
use crate::text::{hex_lower, hex_lower_string, is_blank, is_blank_exec, has_control, has_control_exec, seq_lt, str_eq, str_lt, lemma_seq_lt_total, lemma_seq_lt_transitive};
use crate::assoc::{AssocList, DeepCopy, KeyEq, KeySet};
use crate::scan::{try_fold, lemma_try_fold_next, lemma_try_fold_all, lemma_try_fold_err, lemma_try_fold_ok_step};

verus! {

/// Where the feed's schema is published, below the asset base URL.
pub const PROXY_SCHEMA_KEY: &'static str = "catalogs/v1/consumers/proxy/schema-1.json";

/// The image profile of the feed.
pub const PROXY_PROFILE: &'static str = "proxy-square-v1";

// ----------------------------------------------------------------------------
// Outside computations
// ----------------------------------------------------------------------------

/// The SHA-256 digest of `data`.
pub uninterp spec fn sha256_of(data: Seq<u8>) -> Seq<u8>;

/// `sha2::Sha256::digest`: the 32-byte SHA-256 digest of the bytes, which
/// depends on the bytes alone.  What the digest is, is not stated.
#[verifier::external_body]
fn sha256_digest(data: &[u8]) -> (r: Vec<u8>)
    ensures
        r@ == sha256_of(data@),
        r@.len() == 32,
{
    sha2::Sha256::digest(data).to_vec()
}

/// The parts of a parsed URL that the base URL check reads: scheme, whether
/// it has a host, user name, password, query and fragment.
pub struct UrlParts {
    pub scheme: String,
    pub has_host: bool,
    pub username: String,
    pub password: Option<String>,
    pub query: Option<String>,
    pub fragment: Option<String>,
}

pub open spec fn opt_string_view(s: Option<String>) -> Option<Seq<char>> {
    match s {
        Some(v) => Some(v@),
        None => None,
    }
}

impl View for UrlParts {
    type V = (Seq<char>, bool, Seq<char>, Option<Seq<char>>, Option<Seq<char>>, Option<Seq<char>>);

    open spec fn view(&self) -> (Seq<char>, bool, Seq<char>, Option<Seq<char>>, Option<Seq<char>>, Option<Seq<char>>) {
        (
            self.scheme@,
            self.has_host,
            self.username@,
            opt_string_view(self.password),
            opt_string_view(self.query),
            opt_string_view(self.fragment),
        )
    }
}

/// What `url::Url::parse` makes of a text: the parse error's text when it
/// refuses it, else scheme, host presence, user name, password, query and
/// fragment.
pub uninterp spec fn url_parts_of(text: Seq<char>) -> Result<
    (Seq<char>, bool, Seq<char>, Option<Seq<char>>, Option<Seq<char>>, Option<Seq<char>>),
    Seq<char>,
>;

/// `reqwest::Url::parse` (the `url` crate's WHATWG parser) followed by its
/// `scheme`, `has_host`, `username`, `password`, `query` and `fragment`
/// accessors; a parse error becomes its display text.  The result depends on
/// the text alone; which texts parse, into what, and the error texts are not
/// stated.
#[verifier::external_body]
fn parse_url_parts(text: &str) -> (r: Result<UrlParts, String>)
    ensures
        match r {
            Ok(p) => url_parts_of(text@) == Ok::<_, Seq<char>>(p@),
            Err(e) => url_parts_of(text@) == Err::<(Seq<char>, bool, Seq<char>, Option<Seq<char>>, Option<Seq<char>>, Option<Seq<char>>), _>(e@),
        },
{
    match reqwest::Url::parse(text) {
        Ok(url) => Ok(UrlParts {
            scheme: url.scheme().to_owned(),
            has_host: url.has_host(),
            username: url.username().to_owned(),
            password: url.password().map(str::to_owned),
            query: url.query().map(str::to_owned),
            fragment: url.fragment().map(str::to_owned),
        }),
        Err(error) => Err(error.to_string()),
    }
}

/// Why `unic_langid` refuses the text as a language identifier (the error's
/// display text), or `None` when it accepts it.
pub uninterp spec fn language_identifier_error(text: Seq<char>) -> Option<Seq<char>>;

/// Whether `unic_langid` accepts the text as a language identifier.
pub open spec fn is_language_identifier(text: Seq<char>) -> bool {
    language_identifier_error(text) is None
}

/// `text.parse::<unic_langid::LanguageIdentifier>()`: `None` when the text is
/// a well-formed BCP 47 language identifier, else the error's display text.
/// The result depends on the text alone; which texts are accepted, and the
/// error texts, are not stated.
#[verifier::external_body]
fn language_error(text: &str) -> (r: Option<String>)
    ensures
        opt_string_view(r) == language_identifier_error(text@),
{
    match text.parse::<unic_langid::LanguageIdentifier>() {
        Ok(_) => None,
        Err(error) => Some(error.to_string()),
    }
}

// ----------------------------------------------------------------------------
// Digests and base URLs
// ----------------------------------------------------------------------------

/// The lowercase hexadecimal SHA-256 digest of the bytes.
pub fn sha256(bytes: &[u8]) -> (r: String)
    ensures
        r@ == hex_lower(sha256_of(bytes@)),
        r@.len() == 64,
{
    let digest = sha256_digest(bytes);
    let r = hex_lower_string(digest.as_slice());
    proof {
        lemma_hex_lower_len(digest@);
    }
    r
}

proof fn lemma_hex_lower_len(bytes: Seq<u8>)
    ensures
        hex_lower(bytes).len() == 2 * bytes.len(),
    decreases bytes.len(),
{
    if bytes.len() > 0 {
        lemma_hex_lower_len(bytes.drop_last());
    }
}

/// A lowercase hexadecimal digit.
pub open spec fn is_lower_hex(c: char) -> bool {
    ('0' <= c && c <= '9') || ('a' <= c && c <= 'f')
}

/// Sixty-four lowercase hexadecimal digits.
pub open spec fn is_sha256_text(s: Seq<char>) -> bool {
    s.len() == 64 && forall|i: int| 0 <= i < s.len() ==> is_lower_hex(#[trigger] s[i])
}

/// Whether the text is a lowercase hexadecimal SHA-256 digest.
pub fn is_sha256(value: &str) -> (r: bool)
    ensures
        r == is_sha256_text(value@),
{
    let n = value.unicode_len();
    if n != 64 {
        return false;
    }
    let mut i: usize = 0;
    while i < n
        invariant
            n == value@.len(),
            i <= n,
            forall|j: int| 0 <= j < i ==> is_lower_hex(#[trigger] value@[j]),
        decreases n - i,
    {
        let c = value.get_char(i);
        if !(('0' <= c && c <= '9') || ('a' <= c && c <= 'f')) {
            assert(!is_lower_hex(value@[i as int]));
            return false;
        }
        i += 1;
    }
    true
}

/// `s.trim_end_matches('/')`.
pub open spec fn trim_end_slashes(s: Seq<char>) -> Seq<char>
    decreases s.len(),
{
    if s.len() > 0 && s.last() == '/' {
        trim_end_slashes(s.drop_last())
    } else {
        s
    }
}

proof fn lemma_trim_end_slashes(s: Seq<char>, k: int)
    requires
        0 <= k <= s.len(),
        forall|j: int| k <= j < s.len() ==> s[j] == '/',
        k == 0 || s[k - 1] != '/',
    ensures
        trim_end_slashes(s) == s.subrange(0, k),
    decreases s.len(),
{
    if s.len() > 0 && s.last() == '/' {
        assert(k < s.len()) by {
            if k == s.len() {
                assert(s[k - 1] != '/');
            }
        }
        lemma_trim_end_slashes(s.drop_last(), k);
        assert(s.drop_last().subrange(0, k) =~= s.subrange(0, k));
    } else {
        assert(k == s.len()) by {
            if k < s.len() {
                assert(s[s.len() - 1] == '/');
            }
        }
        assert(s.subrange(0, k) =~= s);
    }
}

fn trimmed_end_slashes(s: &str) -> (r: &str)
    ensures
        r@ == trim_end_slashes(s@),
{
    let n = s.unicode_len();
    let mut k: usize = n;
    while k > 0 && s.get_char(k - 1) == '/'
        invariant
            n == s@.len(),
            k <= n,
            forall|j: int| k <= j < n ==> s@[j] == '/',
        decreases k,
    {
        k -= 1;
    }
    proof {
        lemma_trim_end_slashes(s@, k as int);
    }
    s.substring_char(0, k)
}

/// Why the feed was refused.
#[derive(Debug, Clone, Copy, PartialEq, Eq, Structural)]
pub enum ProxyIndexError {
    /// The asset base URL does not parse.
    UnparsableBaseUrl,
    /// The asset base URL is not a plain public HTTPS URL.
    InvalidBaseUrl,
    /// Schema, profile or visibility is not the supported one.
    UnsupportedContract,
    /// The schema URL is not the one below the asset base URL.
    UnexpectedSchemaUrl,
    /// The revision is not the digest of the index, or the printings are not
    /// ordered by identity.
    RevisionMismatch,
    /// A metadata text is blank or holds a control character.
    EmptyOrControlField,
    /// A printing number is zero.
    NonPositivePrinting,
    /// An upstream card identity is blank.
    EmptyUpstreamIdentity,
    /// A language is not a language identifier.
    InvalidLanguage,
    /// Two printings share a pipeline identity.
    DuplicateIdentity,
    /// One card and language has two different descriptions.
    ConflictingCardMetadata,
    /// A single-sided card does not have exactly one face without a selector.
    SingleFaceShape,
    /// A card with several faces or variants has fewer than two.
    TooFewFaces,
    /// Face selectors are not 1, 2, 3, ... in order.
    BadSelectors,
    /// The front face's title is not the card's title.
    FrontTitleMismatch,
    /// A face has a blank identity or title.
    EmptyFace,
    /// A printing lists one face twice.
    DuplicateFace,
    /// Two faces share printing number, print group and selector.
    DuplicateAlias,
    /// A printing does not have one image per face.
    IncompleteImages,
    /// An image belongs to another face.
    ImageFaceMismatch,
    /// An image is not a full-size proxy WebP.
    InvalidImage,
    /// An image URL is not the immutable public asset URL of its digest.
    UnexpectedImageUrl,
}

impl ProxyIndexError {
    /// The text shown for the error, as characters.
    pub open spec fn message_text(self) -> Seq<char> {
        match self {
            ProxyIndexError::UnparsableBaseUrl => "invalid public asset base URL syntax"@,
            ProxyIndexError::InvalidBaseUrl => "invalid public asset base URL"@,
            ProxyIndexError::UnsupportedContract => "unsupported proxy index contract"@,
            ProxyIndexError::UnexpectedSchemaUrl => "unexpected proxy schema URL"@,
            ProxyIndexError::RevisionMismatch => "proxy index revision or ordering mismatch"@,
            ProxyIndexError::EmptyOrControlField => "metadata contains an empty or control-character field"@,
            ProxyIndexError::NonPositivePrinting => "printing number must be positive"@,
            ProxyIndexError::EmptyUpstreamIdentity => "empty upstream card identity"@,
            ProxyIndexError::InvalidLanguage => "invalid metadata language"@,
            ProxyIndexError::DuplicateIdentity => "duplicate pipeline printing identity"@,
            ProxyIndexError::ConflictingCardMetadata => "conflicting metadata for one card identity"@,
            ProxyIndexError::SingleFaceShape => "single card requires one face without a selector"@,
            ProxyIndexError::TooFewFaces => "multiple faces require at least two faces"@,
            ProxyIndexError::BadSelectors => "face selectors must be consecutive and one-based"@,
            ProxyIndexError::FrontTitleMismatch => "front title differs from card title"@,
            ProxyIndexError::EmptyFace => "empty face identity or title"@,
            ProxyIndexError::DuplicateFace => "duplicate metadata face"@,
            ProxyIndexError::DuplicateAlias => "duplicate public printing alias"@,
            ProxyIndexError::IncompleteImages => "incomplete proxy images"@,
            ProxyIndexError::ImageFaceMismatch => "proxy image face mismatch"@,
            ProxyIndexError::InvalidImage => "invalid full-size proxy WebP image"@,
            ProxyIndexError::UnexpectedImageUrl => "proxy image URL is not the expected immutable public asset"@,
        }
    }

    /// The text shown for the error.
    pub fn message(&self) -> (r: &'static str)
        ensures
            r@ == self.message_text(),
    {
        match self {
            ProxyIndexError::UnparsableBaseUrl => "invalid public asset base URL syntax",
            ProxyIndexError::InvalidBaseUrl => "invalid public asset base URL",
            ProxyIndexError::UnsupportedContract => "unsupported proxy index contract",
            ProxyIndexError::UnexpectedSchemaUrl => "unexpected proxy schema URL",
            ProxyIndexError::RevisionMismatch => "proxy index revision or ordering mismatch",
            ProxyIndexError::EmptyOrControlField => "metadata contains an empty or control-character field",
            ProxyIndexError::NonPositivePrinting => "printing number must be positive",
            ProxyIndexError::EmptyUpstreamIdentity => "empty upstream card identity",
            ProxyIndexError::InvalidLanguage => "invalid metadata language",
            ProxyIndexError::DuplicateIdentity => "duplicate pipeline printing identity",
            ProxyIndexError::ConflictingCardMetadata => "conflicting metadata for one card identity",
            ProxyIndexError::SingleFaceShape => "single card requires one face without a selector",
            ProxyIndexError::TooFewFaces => "multiple faces require at least two faces",
            ProxyIndexError::BadSelectors => "face selectors must be consecutive and one-based",
            ProxyIndexError::FrontTitleMismatch => "front title differs from card title",
            ProxyIndexError::EmptyFace => "empty face identity or title",
            ProxyIndexError::DuplicateFace => "duplicate metadata face",
            ProxyIndexError::DuplicateAlias => "duplicate public printing alias",
            ProxyIndexError::IncompleteImages => "incomplete proxy images",
            ProxyIndexError::ImageFaceMismatch => "proxy image face mismatch",
            ProxyIndexError::InvalidImage => "invalid full-size proxy WebP image",
            ProxyIndexError::UnexpectedImageUrl => "proxy image URL is not the expected immutable public asset",
        }
    }
}

/// A plain public HTTPS location: HTTPS with a host, and no credentials,
/// query or fragment.
pub open spec fn is_public_https(
    parts: (Seq<char>, bool, Seq<char>, Option<Seq<char>>, Option<Seq<char>>, Option<Seq<char>>),
) -> bool {
    &&& parts.0 == "https"@
    &&& parts.1
    &&& parts.2.len() == 0
    &&& parts.3 is None
    &&& parts.4 is None
    &&& parts.5 is None
}

/// The base URL without trailing slashes, if it is a public HTTPS location.
pub open spec fn base_url_verdict(text: Seq<char>) -> Result<Seq<char>, ProxyIndexError> {
    let trimmed = trim_end_slashes(text);
    match url_parts_of(trimmed) {
        Err(_) => Err(ProxyIndexError::UnparsableBaseUrl),
        Ok(parts) => if is_public_https(parts) {
            Ok(trimmed)
        } else {
            Err(ProxyIndexError::InvalidBaseUrl)
        },
    }
}

/// The check that follows parsing: `trimmed` is accepted when its parts, as
/// the URL parser gave them, describe a public HTTPS location.
pub fn public_base_url(trimmed: &str, parts: Option<UrlParts>) -> (r: Result<String, ProxyIndexError>)
    ensures
        match parts {
            None => r == Err::<String, _>(ProxyIndexError::UnparsableBaseUrl),
            Some(p) => if is_public_https(p@) {
                r matches Ok(s) && s@ == trimmed@
            } else {
                r == Err::<String, _>(ProxyIndexError::InvalidBaseUrl)
            },
        },
{
    match parts {
        None => Err(ProxyIndexError::UnparsableBaseUrl),
        Some(p) => {
            let ok = str_eq(p.scheme.as_str(), "https") && p.has_host && p.username.unicode_len() == 0
                && p.password.is_none() && p.query.is_none() && p.fragment.is_none();
            if ok {
                Ok(String::from_str(trimmed))
            } else {
                Err(ProxyIndexError::InvalidBaseUrl)
            }
        },
    }
}

/// The asset base URL without trailing slashes, if it is a public HTTPS
/// location.
pub fn validate_public_base_url(value: &str) -> (r: Result<String, ProxyIndexError>)
    ensures
        match base_url_verdict(value@) {
            Ok(b) => r matches Ok(s) && s@ == b,
            Err(e) => r == Err::<String, _>(e),
        },
{
    let trimmed = trimmed_end_slashes(value);
    let parts = match parse_url_parts(trimmed) {
        Ok(p) => Some(p),
        Err(_) => None,
    };
    public_base_url(trimmed, parts)
}

// ----------------------------------------------------------------------------
// The feed
// ----------------------------------------------------------------------------

/// An identity with a display name (a cycle or a set).
#[derive(Debug)]
pub struct Label {
    pub id: String,
    pub name: String,
}

pub ghost struct LabelView {
    pub id: Seq<char>,
    pub name: Seq<char>,
}

impl View for Label {
    type V = LabelView;

    open spec fn view(&self) -> LabelView {
        LabelView { id: self.id@, name: self.name@ }
    }
}

/// How a card's faces are organised.
#[derive(Debug, Clone, Copy, PartialEq, Eq, Structural)]
pub enum FaceKind {
    Single,
    Multiple,
    Variants,
}

/// One face of a printing.
#[derive(Debug)]
pub struct FaceMetadata {
    pub id: String,
    pub title: String,
    /// None for single-sided cards; one-based for reverse faces or variants.
    pub selector: Option<u16>,
}

pub ghost struct FaceMetaView {
    pub id: Seq<char>,
    pub title: Seq<char>,
    pub selector: Option<u16>,
}

impl View for FaceMetadata {
    type V = FaceMetaView;

    open spec fn view(&self) -> FaceMetaView {
        FaceMetaView { id: self.id@, title: self.title@, selector: self.selector }
    }
}

/// What the feed says of one printing.
#[derive(Debug)]
pub struct PrintingMetadata {
    /// Stable pipeline identity, retained when provisional public numbers change.
    pub id: String,
    pub card_id: String,
    pub upstream_card_id: Option<String>,
    pub printing_id: u32,
    pub print_group: String,
    pub printing_name: String,
    pub title: String,
    pub cycle: Label,
    pub set: Label,
    pub language: String,
    pub face_kind: FaceKind,
    pub faces: Vec<FaceMetadata>,
}

pub ghost struct PrintingMetaView {
    pub id: Seq<char>,
    pub card_id: Seq<char>,
    pub upstream_card_id: Option<Seq<char>>,
    pub printing_id: u32,
    pub print_group: Seq<char>,
    pub printing_name: Seq<char>,
    pub title: Seq<char>,
    pub cycle: LabelView,
    pub set: LabelView,
    pub language: Seq<char>,
    pub face_kind: FaceKind,
    pub faces: Seq<FaceMetaView>,
}

pub open spec fn face_meta_views(faces: Seq<FaceMetadata>) -> Seq<FaceMetaView> {
    faces.map_values(|f: FaceMetadata| f@)
}

impl View for PrintingMetadata {
    type V = PrintingMetaView;

    open spec fn view(&self) -> PrintingMetaView {
        PrintingMetaView {
            id: self.id@,
            card_id: self.card_id@,
            upstream_card_id: opt_string_view(self.upstream_card_id),
            printing_id: self.printing_id,
            print_group: self.print_group@,
            printing_name: self.printing_name@,
            title: self.title@,
            cycle: self.cycle@,
            set: self.set@,
            language: self.language@,
            face_kind: self.face_kind,
            faces: face_meta_views(self.faces@),
        }
    }
}

/// The published image of one face.
#[derive(Debug)]
pub struct ProxyImage {
    pub face_id: String,
    pub sha256: String,
    pub bytes: u64,
    pub width: u32,
    pub height: u32,
    pub media_type: String,
    pub url: String,
}

pub ghost struct ImageView {
    pub face_id: Seq<char>,
    pub sha256: Seq<char>,
    pub bytes: u64,
    pub width: u32,
    pub height: u32,
    pub media_type: Seq<char>,
    pub url: Seq<char>,
}

impl View for ProxyImage {
    type V = ImageView;

    open spec fn view(&self) -> ImageView {
        ImageView {
            face_id: self.face_id@,
            sha256: self.sha256@,
            bytes: self.bytes,
            width: self.width,
            height: self.height,
            media_type: self.media_type@,
            url: self.url@,
        }
    }
}

/// A printing with one image per face.
#[derive(Debug)]
pub struct ProxyPrinting {
    pub metadata: PrintingMetadata,
    pub images: Vec<ProxyImage>,
}

pub ghost struct ProxyPrintingView {
    pub metadata: PrintingMetaView,
    pub images: Seq<ImageView>,
}

pub open spec fn image_views(images: Seq<ProxyImage>) -> Seq<ImageView> {
    images.map_values(|i: ProxyImage| i@)
}

impl View for ProxyPrinting {
    type V = ProxyPrintingView;

    open spec fn view(&self) -> ProxyPrintingView {
        ProxyPrintingView { metadata: self.metadata@, images: image_views(self.images@) }
    }
}

/// The published card feed.
#[derive(Debug)]
pub struct ProxyIndex {
    pub schema: u32,
    pub schema_url: String,
    pub revision: String,
    pub profile: String,
    pub visibility: String,
    pub printing: Vec<ProxyPrinting>,
}

pub ghost struct ProxyIndexView {
    pub schema: u32,
    pub schema_url: Seq<char>,
    pub revision: Seq<char>,
    pub profile: Seq<char>,
    pub visibility: Seq<char>,
    pub printings: Seq<ProxyPrintingView>,
}

pub open spec fn proxy_printing_views(printings: Seq<ProxyPrinting>) -> Seq<ProxyPrintingView> {
    printings.map_values(|p: ProxyPrinting| p@)
}

impl View for ProxyIndex {
    type V = ProxyIndexView;

    open spec fn view(&self) -> ProxyIndexView {
        ProxyIndexView {
            schema: self.schema,
            schema_url: self.schema_url@,
            revision: self.revision@,
            profile: self.profile@,
            visibility: self.visibility@,
            printings: proxy_printing_views(self.printing@),
        }
    }
}

// ----------------------------------------------------------------------------
// Metadata rules
// ----------------------------------------------------------------------------

/// What must agree between all printings of one card in one language.
pub ghost struct CardIdentity {
    pub title: Seq<char>,
    pub upstream: Option<Seq<char>>,
    pub kind: FaceKind,
    pub face_titles: Seq<Seq<char>>,
}

pub open spec fn titles_of(faces: Seq<FaceMetaView>) -> Seq<Seq<char>> {
    faces.map_values(|f: FaceMetaView| f.title)
}

pub open spec fn string_views(s: Seq<String>) -> Seq<Seq<char>> {
    s.map_values(|t: String| t@)
}

pub open spec fn identity_of(m: PrintingMetaView) -> CardIdentity {
    CardIdentity {
        title: m.title,
        upstream: m.upstream_card_id,
        kind: m.face_kind,
        face_titles: titles_of(m.faces),
    }
}

/// What the printings seen so far have claimed.
pub ghost struct MetadataSeen {
    pub ids: Set<Seq<char>>,
    pub aliases: Set<(u32, Seq<char>, Option<u16>)>,
    pub cards: Map<(Seq<char>, Seq<char>), CardIdentity>,
}

pub open spec fn nothing_seen() -> MetadataSeen {
    MetadataSeen { ids: Set::empty(), aliases: Set::empty(), cards: Map::empty() }
}

/// The texts that must be neither blank nor hold a control character.
pub open spec fn required_texts(m: PrintingMetaView) -> Seq<Seq<char>> {
    seq![
        m.id,
        m.card_id,
        m.print_group,
        m.printing_name,
        m.title,
        m.cycle.id,
        m.cycle.name,
        m.set.id,
        m.set.name,
    ]
}

pub open spec fn text_ok(s: Seq<char>) -> bool {
    !is_blank(s) && !has_control(s)
}

/// The face's selector is `n`.
pub open spec fn selector_is(f: FaceMetaView, n: int) -> bool {
    match f.selector {
        Some(s) => s as int == n,
        None => false,
    }
}

/// The face list fits the face kind: one face without a selector for a
/// single card, else at least two faces with selectors 1, 2, 3, ...
pub open spec fn shape_verdict(m: PrintingMetaView) -> Result<(), ProxyIndexError> {
    match m.face_kind {
        FaceKind::Single => if m.faces.len() == 1 && m.faces[0].selector is None {
            Ok(())
        } else {
            Err(ProxyIndexError::SingleFaceShape)
        },
        _ => if m.faces.len() < 2 {
            Err(ProxyIndexError::TooFewFaces)
        } else if forall|i: int| 0 <= i < m.faces.len() ==> selector_is(#[trigger] m.faces[i], i + 1) {
            Ok(())
        } else {
            Err(ProxyIndexError::BadSelectors)
        },
    }
}

/// One face of a printing: a non-blank identity and title, not seen before in
/// this printing, and a public alias not seen before at all.
pub open spec fn face_check(
    seen: (Set<Seq<char>>, Set<(u32, Seq<char>, Option<u16>)>),
    f: FaceMetaView,
    m: PrintingMetaView,
) -> Result<(Set<Seq<char>>, Set<(u32, Seq<char>, Option<u16>)>), ProxyIndexError> {
    if is_blank(f.id) || is_blank(f.title) {
        Err(ProxyIndexError::EmptyFace)
    } else if seen.0.contains(f.id) {
        Err(ProxyIndexError::DuplicateFace)
    } else if seen.1.contains((m.printing_id, m.print_group, f.selector)) {
        Err(ProxyIndexError::DuplicateAlias)
    } else {
        Ok((seen.0.insert(f.id), seen.1.insert((m.printing_id, m.print_group, f.selector))))
    }
}

pub open spec fn face_checker(m: PrintingMetaView) -> spec_fn(
    (Set<Seq<char>>, Set<(u32, Seq<char>, Option<u16>)>),
    FaceMetaView,
) -> Result<(Set<Seq<char>>, Set<(u32, Seq<char>, Option<u16>)>), ProxyIndexError> {
    |seen: (Set<Seq<char>>, Set<(u32, Seq<char>, Option<u16>)>), f: FaceMetaView| face_check(seen, f, m)
}

/// The printing names an upstream identity that is blank.
pub open spec fn upstream_blank(m: PrintingMetaView) -> bool {
    match m.upstream_card_id {
        Some(u) => is_blank(u),
        None => false,
    }
}

/// One printing's metadata, checked in order against what came before
/// (`language_ok`: whether its language is a language identifier).
pub open spec fn metadata_step(seen: MetadataSeen, item: (PrintingMetaView, bool)) -> Result<
    MetadataSeen,
    ProxyIndexError,
> {
    let m = item.0;
    let card = (m.card_id, m.language);
    if !(forall|i: int| 0 <= i < 9 ==> #[trigger] text_ok(required_texts(m)[i])) {
        Err(ProxyIndexError::EmptyOrControlField)
    } else if m.printing_id == 0 {
        Err(ProxyIndexError::NonPositivePrinting)
    } else if upstream_blank(m) {
        Err(ProxyIndexError::EmptyUpstreamIdentity)
    } else if !item.1 {
        Err(ProxyIndexError::InvalidLanguage)
    } else if seen.ids.contains(m.id) {
        Err(ProxyIndexError::DuplicateIdentity)
    } else if seen.cards.contains_key(card) && seen.cards[card] != identity_of(m) {
        Err(ProxyIndexError::ConflictingCardMetadata)
    } else {
        match shape_verdict(m) {
            Err(e) => Err(e),
            Ok(()) => if m.faces[0].title != m.title {
                Err(ProxyIndexError::FrontTitleMismatch)
            } else {
                match try_fold(m.faces, (Set::empty(), seen.aliases), face_checker(m)) {
                    Err(e) => Err(e),
                    Ok(after) => Ok(
                        MetadataSeen {
                            ids: seen.ids.insert(m.id),
                            aliases: after.1,
                            cards: seen.cards.insert(card, identity_of(m)),
                        },
                    ),
                }
            },
        }
    }
}

pub open spec fn metadata_stepper() -> spec_fn(MetadataSeen, (PrintingMetaView, bool)) -> Result<
    MetadataSeen,
    ProxyIndexError,
> {
    |seen: MetadataSeen, item: (PrintingMetaView, bool)| metadata_step(seen, item)
}

/// Each printing's metadata paired with whether its language is valid.
pub open spec fn with_languages(printings: Seq<ProxyPrintingView>, languages_ok: Seq<bool>) -> Seq<
    (PrintingMetaView, bool),
> {
    Seq::new(printings.len(), |i: int| (printings[i].metadata, languages_ok[i]))
}

/// The first metadata rule that the printings break, in order.
pub open spec fn metadata_verdict(printings: Seq<ProxyPrintingView>, languages_ok: Seq<bool>) -> Result<
    (),
    ProxyIndexError,
> {
    match try_fold(with_languages(printings, languages_ok), nothing_seen(), metadata_stepper()) {
        Ok(_) => Ok(()),
        Err(e) => Err(e),
    }
}

/// Whether each printing's language is a language identifier.
pub open spec fn languages_valid(printings: Seq<ProxyPrintingView>) -> Seq<bool> {
    Seq::new(printings.len(), |i: int| is_language_identifier(printings[i].metadata.language))
}

/// A public printing alias: printing number, print group and selector.
#[derive(Debug)]
pub struct AliasKey {
    pub printing_id: u32,
    pub print_group: String,
    pub selector: Option<u16>,
}

impl View for AliasKey {
    type V = (u32, Seq<char>, Option<u16>);

    open spec fn view(&self) -> (u32, Seq<char>, Option<u16>) {
        (self.printing_id, self.print_group@, self.selector)
    }
}

fn option_u16_eq(a: Option<u16>, b: Option<u16>) -> (r: bool)
    ensures
        r == (a == b),
{
    match (a, b) {
        (None, None) => true,
        (Some(x), Some(y)) => x == y,
        _ => false,
    }
}

impl KeyEq for AliasKey {
    fn key_eq(&self, other: &Self) -> (r: bool) {
        self.printing_id == other.printing_id && self.print_group.key_eq(&other.print_group)
            && option_u16_eq(self.selector, other.selector)
    }
}

impl DeepCopy for AliasKey {
    fn deep_copy(&self) -> (r: Self) {
        AliasKey {
            printing_id: self.printing_id,
            print_group: self.print_group.deep_copy(),
            selector: self.selector,
        }
    }
}

/// A card in one language.
#[derive(Debug)]
pub struct CardLanguage {
    pub card_id: String,
    pub language: String,
}

impl View for CardLanguage {
    type V = (Seq<char>, Seq<char>);

    open spec fn view(&self) -> (Seq<char>, Seq<char>) {
        (self.card_id@, self.language@)
    }
}

impl KeyEq for CardLanguage {
    fn key_eq(&self, other: &Self) -> (r: bool) {
        self.card_id.key_eq(&other.card_id) && self.language.key_eq(&other.language)
    }
}

impl DeepCopy for CardLanguage {
    fn deep_copy(&self) -> (r: Self) {
        CardLanguage { card_id: self.card_id.deep_copy(), language: self.language.deep_copy() }
    }
}

/// The description of a card that its printings must agree on.
#[derive(Debug)]
pub struct CardIdentityRecord {
    pub title: String,
    pub upstream: Option<String>,
    pub kind: FaceKind,
    pub face_titles: Vec<String>,
}

impl View for CardIdentityRecord {
    type V = CardIdentity;

    open spec fn view(&self) -> CardIdentity {
        CardIdentity {
            title: self.title@,
            upstream: opt_string_view(self.upstream),
            kind: self.kind,
            face_titles: string_views(self.face_titles@),
        }
    }
}

fn option_string_eq(a: &Option<String>, b: &Option<String>) -> (r: bool)
    ensures
        r == (opt_string_view(*a) == opt_string_view(*b)),
{
    match (a, b) {
        (None, None) => true,
        (Some(x), Some(y)) => str_eq(x.as_str(), y.as_str()),
        _ => false,
    }
}

fn option_string_copy(a: &Option<String>) -> (r: Option<String>)
    ensures
        opt_string_view(r) == opt_string_view(*a),
{
    match a {
        None => None,
        Some(x) => Some(x.clone()),
    }
}

/// The identity record that a printing describes.
fn identity_record(m: &PrintingMetadata) -> (r: CardIdentityRecord)
    ensures
        r@ == identity_of(m@),
{
    let mut titles: Vec<String> = Vec::new();
    let ghost fv = m@.faces;
    let mut i: usize = 0;
    while i < m.faces.len()
        invariant
            i <= m.faces.len(),
            fv == m@.faces,
            fv.len() == m.faces.len(),
            string_views(titles@) == titles_of(fv.subrange(0, i as int)),
        decreases m.faces.len() - i,
    {
        let ghost before = titles@;
        let t = m.faces[i].title.clone();
        titles.push(t);
        assert(fv[i as int] == m.faces[i as int]@);
        assert(titles@ == before.push(t));
        assert(string_views(titles@) =~= string_views(before).push(t@));
        assert(fv.subrange(0, i + 1) =~= fv.subrange(0, i as int).push(fv[i as int]));
        assert(titles_of(fv.subrange(0, i + 1)) =~= titles_of(fv.subrange(0, i as int)).push(fv[i as int].title));
        i += 1;
    }
    assert(fv.subrange(0, fv.len() as int) =~= fv);
    CardIdentityRecord {
        title: m.title.clone(),
        upstream: option_string_copy(&m.upstream_card_id),
        kind: m.face_kind,
        face_titles: titles,
    }
}

/// Whether a recorded identity is the one a printing describes.
fn identity_matches(rec: &CardIdentityRecord, m: &PrintingMetadata) -> (r: bool)
    ensures
        r == (rec@ == identity_of(m@)),
{
    let ghost id = identity_of(m@);
    if !str_eq(rec.title.as_str(), m.title.as_str()) {
        assert(rec@.title != id.title);
        return false;
    }
    if !option_string_eq(&rec.upstream, &m.upstream_card_id) {
        assert(rec@.upstream != id.upstream);
        return false;
    }
    if rec.kind != m.face_kind {
        assert(rec@.kind != id.kind);
        return false;
    }
    if rec.face_titles.len() != m.faces.len() {
        assert(rec@.face_titles.len() != id.face_titles.len());
        return false;
    }
    let mut i: usize = 0;
    while i < m.faces.len()
        invariant
            i <= m.faces.len(),
            rec.face_titles.len() == m.faces.len(),
            id == identity_of(m@),
            forall|j: int| 0 <= j < i ==> rec@.face_titles[j] == id.face_titles[j],
        decreases m.faces.len() - i,
    {
        assert(id.face_titles[i as int] == m.faces[i as int]@.title);
        if !str_eq(rec.face_titles[i].as_str(), m.faces[i].title.as_str()) {
            assert(rec@.face_titles[i as int] != id.face_titles[i as int]);
            return false;
        }
        i += 1;
    }
    assert(rec@.face_titles =~= id.face_titles);
    true
}

/// What the printings seen so far have claimed.
struct MetadataTracker {
    ids: KeySet<String>,
    aliases: KeySet<AliasKey>,
    cards: AssocList<CardLanguage, CardIdentityRecord>,
}

impl View for MetadataTracker {
    type V = MetadataSeen;

    closed spec fn view(&self) -> MetadataSeen {
        MetadataSeen { ids: self.ids@, aliases: self.aliases@, cards: self.cards@ }
    }
}

fn field_ok(s: &String) -> (r: bool)
    ensures
        r == text_ok(s@),
{
    !is_blank_exec(s.as_str()) && !has_control_exec(s.as_str())
}

fn required_texts_ok(m: &PrintingMetadata) -> (r: bool)
    ensures
        r == (forall|i: int| 0 <= i < 9 ==> #[trigger] text_ok(required_texts(m@)[i])),
{
    let ghost t = required_texts(m@);
    assert(t[0] == m@.id && t[1] == m@.card_id && t[2] == m@.print_group && t[3] == m@.printing_name
        && t[4] == m@.title && t[5] == m@.cycle.id && t[6] == m@.cycle.name && t[7] == m@.set.id
        && t[8] == m@.set.name);
    let r = field_ok(&m.id) && field_ok(&m.card_id) && field_ok(&m.print_group) && field_ok(&m.printing_name)
        && field_ok(&m.title) && field_ok(&m.cycle.id) && field_ok(&m.cycle.name) && field_ok(&m.set.id)
        && field_ok(&m.set.name);
    proof {
        if r {
            assert forall|i: int| 0 <= i < 9 implies #[trigger] text_ok(t[i]) by {
                if i == 0 {} else if i == 1 {} else if i == 2 {} else if i == 3 {} else if i == 4 {}
                else if i == 5 {} else if i == 6 {} else if i == 7 {} else {}
            }
        } else {
            assert(!text_ok(t[0]) || !text_ok(t[1]) || !text_ok(t[2]) || !text_ok(t[3]) || !text_ok(t[4])
                || !text_ok(t[5]) || !text_ok(t[6]) || !text_ok(t[7]) || !text_ok(t[8]));
        }
    }
    r
}

/// Whether the face list fits the face kind; see `shape_verdict`.
fn check_shape(m: &PrintingMetadata) -> (r: Result<(), ProxyIndexError>)
    ensures
        r == shape_verdict(m@),
{
    let ghost fv = m@.faces;
    assert(fv.len() == m.faces.len());
    match m.face_kind {
        FaceKind::Single => {
            if m.faces.len() == 1 && m.faces[0].selector.is_none() {
                Ok(())
            } else {
                proof {
                    if m.faces.len() == 1 {
                        assert(fv[0] == m.faces[0]@);
                    }
                }
                Err(ProxyIndexError::SingleFaceShape)
            }
        },
        _ => {
            if m.faces.len() < 2 {
                return Err(ProxyIndexError::TooFewFaces);
            }
            let mut i: usize = 0;
            while i < m.faces.len()
                invariant
                    i <= m.faces.len(),
                    fv == m@.faces,
                    fv.len() == m.faces.len(),
                    m.faces.len() >= 2,
                    !(m@.face_kind is Single),
                    forall|j: int| 0 <= j < i ==> selector_is(#[trigger] fv[j], j + 1),
                decreases m.faces.len() - i,
            {
                assert(fv[i as int] == m.faces[i as int]@);
                let good = match m.faces[i].selector {
                    Some(s) => s as usize == i + 1,
                    None => false,
                };
                if !good {
                    assert(!selector_is(fv[i as int], i + 1));
                    return Err(ProxyIndexError::BadSelectors);
                }
                i += 1;
            }
            Ok(())
        },
    }
}

/// Checks one printing's metadata against what came before and records it;
/// see `metadata_step`.
fn check_printing_metadata(seen: &mut MetadataTracker, m: &PrintingMetadata, language_ok: bool) -> (r: Result<
    (),
    ProxyIndexError,
>)
    ensures
        match metadata_step(old(seen)@, (m@, language_ok)) {
            Ok(s) => r is Ok && final(seen)@ == s,
            Err(e) => r == Err::<(), _>(e),
        },
{
    let ghost mv = m@;
    if !required_texts_ok(m) {
        return Err(ProxyIndexError::EmptyOrControlField);
    }
    if m.printing_id == 0 {
        return Err(ProxyIndexError::NonPositivePrinting);
    }
    if let Some(u) = &m.upstream_card_id {
        if is_blank_exec(u.as_str()) {
            return Err(ProxyIndexError::EmptyUpstreamIdentity);
        }
    }
    if !language_ok {
        return Err(ProxyIndexError::InvalidLanguage);
    }
    if seen.ids.contains(&m.id) {
        return Err(ProxyIndexError::DuplicateIdentity);
    }
    let card = CardLanguage { card_id: m.card_id.clone(), language: m.language.clone() };
    if let Some(previous) = seen.cards.get(&card) {
        if !identity_matches(previous, m) {
            return Err(ProxyIndexError::ConflictingCardMetadata);
        }
    }
    let shape = check_shape(m);
    if let Err(e) = shape {
        return Err(e);
    }
    assert(mv.faces[0] == m.faces[0]@);
    if !str_eq(m.faces[0].title.as_str(), m.title.as_str()) {
        return Err(ProxyIndexError::FrontTitleMismatch);
    }
    let ghost fv = mv.faces;
    let ghost start = (Set::<Seq<char>>::empty(), seen.aliases@);
    let ghost checker = face_checker(mv);
    let ghost key = (mv.card_id, mv.language);
    assert(metadata_step(old(seen)@, (mv, language_ok)) == match try_fold(fv, start, checker) {
        Err(e) => Err(e),
        Ok(after) => Ok(MetadataSeen {
            ids: old(seen)@.ids.insert(mv.id),
            aliases: after.1,
            cards: old(seen)@.cards.insert(key, identity_of(mv)),
        }),
    });
    let mut faces: KeySet<String> = KeySet::new();
    let mut i: usize = 0;
    while i < m.faces.len()
        invariant
            i <= m.faces.len(),
            mv == m@,
            key == (mv.card_id, mv.language),
            metadata_step(old(seen)@, (mv, language_ok)) == match try_fold(fv, start, checker) {
                Err(e) => Err(e),
                Ok(after) => Ok(MetadataSeen {
                    ids: old(seen)@.ids.insert(mv.id),
                    aliases: after.1,
                    cards: old(seen)@.cards.insert(key, identity_of(mv)),
                }),
            },
            fv == mv.faces,
            fv.len() == m.faces.len(),
            checker == face_checker(mv),
            try_fold(fv.subrange(0, i as int), start, checker) == Ok::<_, ProxyIndexError>((faces@, seen.aliases@)),
            seen.ids@ == old(seen).ids@,
            seen.cards@ == old(seen).cards@,
            start == (Set::<Seq<char>>::empty(), old(seen).aliases@),
        decreases m.faces.len() - i,
    {
        let face = &m.faces[i];
        proof {
            lemma_try_fold_next(fv, start, checker, i as int);
            assert(fv[i as int] == face@);
        }
        if is_blank_exec(face.id.as_str()) || is_blank_exec(face.title.as_str()) {
            proof {
                lemma_try_fold_err(fv, start, checker, i + 1);
            }
            return Err(ProxyIndexError::EmptyFace);
        }
        if faces.contains(&face.id) {
            proof {
                lemma_try_fold_err(fv, start, checker, i + 1);
            }
            return Err(ProxyIndexError::DuplicateFace);
        }
        let alias = AliasKey { printing_id: m.printing_id, print_group: m.print_group.clone(), selector: face.selector };
        if seen.aliases.contains(&alias) {
            proof {
                lemma_try_fold_err(fv, start, checker, i + 1);
            }
            return Err(ProxyIndexError::DuplicateAlias);
        }
        faces.insert(face.id.clone());
        seen.aliases.insert(alias);
        i += 1;
    }
    proof {
        lemma_try_fold_all(fv, start, checker);
    }
    seen.ids.insert(m.id.clone());
    seen.cards.insert(card, identity_record(m));
    Ok(())
}

/// The first metadata rule that the printings break, in order, given for each
/// printing whether its language is a language identifier.
pub fn check_metadata(printings: &[ProxyPrinting], languages_ok: &[bool]) -> (r: Result<(), ProxyIndexError>)
    requires
        languages_ok@.len() == printings@.len(),
    ensures
        r == metadata_verdict(proxy_printing_views(printings@), languages_ok@),
{
    let ghost items = with_languages(proxy_printing_views(printings@), languages_ok@);
    let ghost step = metadata_stepper();
    let mut seen = MetadataTracker { ids: KeySet::new(), aliases: KeySet::new(), cards: AssocList::new() };
    let mut i: usize = 0;
    while i < printings.len()
        invariant
            i <= printings.len(),
            languages_ok@.len() == printings@.len(),
            items == with_languages(proxy_printing_views(printings@), languages_ok@),
            step == metadata_stepper(),
            try_fold(items.subrange(0, i as int), nothing_seen(), step) == Ok::<_, ProxyIndexError>(seen@),
        decreases printings.len() - i,
    {
        proof {
            lemma_try_fold_next(items, nothing_seen(), step, i as int);
            assert(items[i as int] == (printings[i as int].metadata@, languages_ok@[i as int]));
        }
        let checked = check_printing_metadata(&mut seen, &printings[i].metadata, languages_ok[i]);
        if let Err(e) = checked {
            proof {
                lemma_try_fold_err(items, nothing_seen(), step, i + 1);
            }
            return Err(e);
        }
        i += 1;
    }
    proof {
        lemma_try_fold_all(items, nothing_seen(), step);
    }
    Ok(())
}

/// Whether each printing's language is a language identifier.
fn language_flags(printings: &[ProxyPrinting]) -> (r: Vec<bool>)
    ensures
        r@ == languages_valid(proxy_printing_views(printings@)),
{
    let mut flags: Vec<bool> = Vec::new();
    let mut i: usize = 0;
    while i < printings.len()
        invariant
            i <= printings.len(),
            flags@ == languages_valid(proxy_printing_views(printings@)).subrange(0, i as int),
        decreases printings.len() - i,
    {
        let ok = language_error(printings[i].metadata.language.as_str()).is_none();
        flags.push(ok);
        assert(flags@ =~= languages_valid(proxy_printing_views(printings@)).subrange(0, i + 1));
        i += 1;
    }
    assert(languages_valid(proxy_printing_views(printings@)).subrange(0, i as int) =~= languages_valid(
        proxy_printing_views(printings@),
    ));
    flags
}

/// The first metadata rule that the printings break, in order: non-blank
/// texts without control characters, a positive printing number, a non-blank
/// upstream identity, a valid language, unique pipeline identities, one
/// description per card and language, faces that fit the face kind, a front
/// title equal to the card title, and unique faces and public aliases.
pub fn validate_metadata(printings: &[ProxyPrinting]) -> (r: Result<(), ProxyIndexError>)
    ensures
        r == metadata_verdict(
            proxy_printing_views(printings@),
            languages_valid(proxy_printing_views(printings@)),
        ),
{
    let flags = language_flags(printings);
    check_metadata(printings, flags.as_slice())
}

// ----------------------------------------------------------------------------
// The whole index
// ----------------------------------------------------------------------------

/// The schema URL below the asset base URL.
pub open spec fn schema_url_of(base: Seq<char>) -> Seq<char> {
    base + "/"@ + PROXY_SCHEMA_KEY@
}

/// The printings come in order of their pipeline identities.
pub open spec fn ordered_by_id(printings: Seq<ProxyPrintingView>) -> bool {
    forall|i: int, j: int|
        0 <= i < j < printings.len() ==> !seq_lt(
            #[trigger] printings[j].metadata.id,
            #[trigger] printings[i].metadata.id,
        )
}

/// The immutable public asset URL of an image digest.
pub open spec fn image_url_of(base: Seq<char>, digest: Seq<char>) -> Seq<char> {
    base + "/assets/v1/sha256/"@ + digest.subrange(0, 2) + "/"@ + digest + ".webp"@
}

/// A full-size proxy WebP with a digest.
pub open spec fn image_ok(img: ImageView) -> bool {
    &&& is_sha256_text(img.sha256)
    &&& img.bytes > 0
    &&& img.width == 750
    &&& img.height == 1050
    &&& img.media_type == "image/webp"@
}

/// One face and its image.
pub open spec fn face_image_verdict(face: FaceMetaView, img: ImageView, base: Seq<char>) -> Result<
    (),
    ProxyIndexError,
> {
    if face.id != img.face_id {
        Err(ProxyIndexError::ImageFaceMismatch)
    } else if !image_ok(img) {
        Err(ProxyIndexError::InvalidImage)
    } else if img.url != image_url_of(base, img.sha256) {
        Err(ProxyIndexError::UnexpectedImageUrl)
    } else {
        Ok(())
    }
}

/// The faces of a printing paired with its images.
pub open spec fn faces_with_images(p: ProxyPrintingView) -> Seq<(FaceMetaView, ImageView)> {
    Seq::new(p.metadata.faces.len(), |i: int| (p.metadata.faces[i], p.images[i]))
}

pub open spec fn face_image_checker(base: Seq<char>) -> spec_fn((), (FaceMetaView, ImageView)) -> Result<
    (),
    ProxyIndexError,
> {
    |u: (), pair: (FaceMetaView, ImageView)| face_image_verdict(pair.0, pair.1, base)
}

/// One image per face, each one the right face's full-size WebP at its
/// immutable public URL.
pub open spec fn printing_images_verdict(p: ProxyPrintingView, base: Seq<char>) -> Result<(), ProxyIndexError> {
    if p.images.len() != p.metadata.faces.len() {
        Err(ProxyIndexError::IncompleteImages)
    } else {
        try_fold(faces_with_images(p), (), face_image_checker(base))
    }
}

pub open spec fn printing_images_checker(base: Seq<char>) -> spec_fn((), ProxyPrintingView) -> Result<
    (),
    ProxyIndexError,
> {
    |u: (), p: ProxyPrintingView| printing_images_verdict(p, base)
}

/// The first printing whose images are wrong, in order.
pub open spec fn images_verdict(printings: Seq<ProxyPrintingView>, base: Seq<char>) -> Result<(), ProxyIndexError> {
    try_fold(printings, (), printing_images_checker(base))
}

/// The index checked against its base URL, the digest of its unsigned
/// serialization, and the validity of each printing's language.
pub open spec fn index_verdict(
    index: ProxyIndexView,
    base: Seq<char>,
    revision: Seq<char>,
    languages_ok: Seq<bool>,
) -> Result<(), ProxyIndexError> {
    if !(index.schema == 1 && index.profile == PROXY_PROFILE@ && index.visibility == "public"@) {
        Err(ProxyIndexError::UnsupportedContract)
    } else if index.schema_url != schema_url_of(base) {
        Err(ProxyIndexError::UnexpectedSchemaUrl)
    } else if !(ordered_by_id(index.printings) && index.revision == revision) {
        Err(ProxyIndexError::RevisionMismatch)
    } else {
        match metadata_verdict(index.printings, languages_ok) {
            Err(e) => Err(e),
            Ok(()) => images_verdict(index.printings, base),
        }
    }
}

/// What validating the index gives: the base URL is checked first, then the
/// index against it, its revision against the SHA-256 digest of
/// `unsigned_json`, and its languages.
pub open spec fn proxy_index_verdict(index: ProxyIndexView, base_url: Seq<char>, unsigned_json: Seq<u8>) -> Result<
    (),
    ProxyIndexError,
> {
    match base_url_verdict(base_url) {
        Err(e) => Err(e),
        Ok(base) => index_verdict(
            index,
            base,
            hex_lower(sha256_of(unsigned_json)),
            languages_valid(index.printings),
        ),
    }
}

proof fn lemma_not_lt_transitive(a: Seq<char>, b: Seq<char>, c: Seq<char>)
    requires
        !seq_lt(b, a),
        !seq_lt(c, b),
    ensures
        !seq_lt(c, a),
{
    if seq_lt(c, a) {
        if a == b {
        } else {
            lemma_seq_lt_total(a, b);
            lemma_seq_lt_transitive(c, a, b);
        }
    }
}

/// Whether the printings come in order of their pipeline identities.
fn ordered_by_identity(printings: &[ProxyPrinting]) -> (r: bool)
    ensures
        r == ordered_by_id(proxy_printing_views(printings@)),
{
    let ghost ps = proxy_printing_views(printings@);
    let n = printings.len();
    if n == 0 {
        return true;
    }
    let mut k: usize = 1;
    while k < n
        invariant
            1 <= k <= n,
            n == printings@.len(),
            ps == proxy_printing_views(printings@),
            forall|i: int, j: int| 0 <= i < j < k ==> !seq_lt(#[trigger] ps[j].metadata.id, #[trigger] ps[i].metadata.id),
        decreases n - k,
    {
        assert(ps[k as int].metadata.id == printings[k as int].metadata.id@);
        assert(ps[k - 1].metadata.id == printings[k - 1].metadata.id@);
        if str_lt(printings[k].metadata.id.as_str(), printings[k - 1].metadata.id.as_str()) {
            return false;
        }
        assert forall|i: int, j: int| 0 <= i < j < k + 1 implies !seq_lt(
            #[trigger] ps[j].metadata.id,
            #[trigger] ps[i].metadata.id,
        ) by {
            if j == k && i < k - 1 {
                assert(!seq_lt(ps[k - 1].metadata.id, ps[i].metadata.id));
                lemma_not_lt_transitive(ps[i].metadata.id, ps[k - 1].metadata.id, ps[k as int].metadata.id);
            }
        }
        k += 1;
    }
    true
}

/// Whether an image is a full-size proxy WebP with a digest.
fn image_is_ok(img: &ProxyImage) -> (r: bool)
    ensures
        r == image_ok(img@),
{
    is_sha256(img.sha256.as_str()) && img.bytes > 0 && img.width == 750 && img.height == 1050 && str_eq(
        img.media_type.as_str(),
        "image/webp",
    )
}

/// Checks one face and its image; see `face_image_verdict`.
fn check_face_image(face: &FaceMetadata, img: &ProxyImage, base: &str) -> (r: Result<(), ProxyIndexError>)
    ensures
        r == face_image_verdict(face@, img@, base@),
{
    if !str_eq(face.id.as_str(), img.face_id.as_str()) {
        return Err(ProxyIndexError::ImageFaceMismatch);
    }
    if !image_is_ok(img) {
        return Err(ProxyIndexError::InvalidImage);
    }
    let digest = img.sha256.as_str();
    let mut expected = String::from_str(base);
    expected.append("/assets/v1/sha256/");
    expected.append(digest.substring_char(0, 2));
    expected.append("/");
    expected.append(digest);
    expected.append(".webp");
    if !str_eq(img.url.as_str(), expected.as_str()) {
        return Err(ProxyIndexError::UnexpectedImageUrl);
    }
    Ok(())
}

/// Checks one printing's images; see `printing_images_verdict`.
fn check_printing_images(p: &ProxyPrinting, base: &str) -> (r: Result<(), ProxyIndexError>)
    ensures
        r == printing_images_verdict(p@, base@),
{
    if p.images.len() != p.metadata.faces.len() {
        return Err(ProxyIndexError::IncompleteImages);
    }
    let ghost pairs = faces_with_images(p@);
    let ghost checker = face_image_checker(base@);
    let mut i: usize = 0;
    while i < p.images.len()
        invariant
            i <= p.images.len(),
            p.images.len() == p.metadata.faces.len(),
            pairs == faces_with_images(p@),
            checker == face_image_checker(base@),
            try_fold(pairs.subrange(0, i as int), (), checker) == Ok::<(), ProxyIndexError>(()),
        decreases p.images.len() - i,
    {
        proof {
            lemma_try_fold_next(pairs, (), checker, i as int);
            assert(pairs[i as int] == (p.metadata.faces[i as int]@, p.images[i as int]@));
        }
        let checked = check_face_image(&p.metadata.faces[i], &p.images[i], base);
        if let Err(e) = checked {
            proof {
                lemma_try_fold_err(pairs, (), checker, i + 1);
            }
            return Err(e);
        }
        i += 1;
    }
    proof {
        lemma_try_fold_all(pairs, (), checker);
    }
    Ok(())
}

/// Checks every printing's images; see `images_verdict`.
fn check_images(printings: &[ProxyPrinting], base: &str) -> (r: Result<(), ProxyIndexError>)
    ensures
        r == images_verdict(proxy_printing_views(printings@), base@),
{
    let ghost ps = proxy_printing_views(printings@);
    let ghost checker = printing_images_checker(base@);
    let mut i: usize = 0;
    while i < printings.len()
        invariant
            i <= printings.len(),
            ps == proxy_printing_views(printings@),
            checker == printing_images_checker(base@),
            try_fold(ps.subrange(0, i as int), (), checker) == Ok::<(), ProxyIndexError>(()),
        decreases printings.len() - i,
    {
        proof {
            lemma_try_fold_next(ps, (), checker, i as int);
        }
        let checked = check_printing_images(&printings[i], base);
        if let Err(e) = checked {
            proof {
                lemma_try_fold_err(ps, (), checker, i + 1);
            }
            return Err(e);
        }
        i += 1;
    }
    proof {
        lemma_try_fold_all(ps, (), checker);
    }
    Ok(())
}

/// Checks the index against an accepted base URL, the expected revision and
/// each printing's language validity; see `index_verdict`.
pub fn check_proxy_index(index: &ProxyIndex, base: &str, revision: &str, languages_ok: &[bool]) -> (r: Result<
    (),
    ProxyIndexError,
>)
    requires
        languages_ok@.len() == index.printing@.len(),
    ensures
        r == index_verdict(index@, base@, revision@, languages_ok@),
{
    if !(index.schema == 1 && str_eq(index.profile.as_str(), PROXY_PROFILE) && str_eq(
        index.visibility.as_str(),
        "public",
    )) {
        return Err(ProxyIndexError::UnsupportedContract);
    }
    let mut schema_url = String::from_str(base);
    schema_url.append("/");
    schema_url.append(PROXY_SCHEMA_KEY);
    if !str_eq(index.schema_url.as_str(), schema_url.as_str()) {
        return Err(ProxyIndexError::UnexpectedSchemaUrl);
    }
    if !(ordered_by_identity(index.printing.as_slice()) && str_eq(index.revision.as_str(), revision)) {
        return Err(ProxyIndexError::RevisionMismatch);
    }
    let metadata = check_metadata(index.printing.as_slice(), languages_ok);
    if let Err(e) = metadata {
        return Err(e);
    }
    check_images(index.printing.as_slice(), base)
}

/// Validates a parsed feed: the asset base URL, the contract (schema 1, the
/// proxy profile, public visibility), the schema URL, the revision (the
/// SHA-256 digest of `unsigned_json`, the feed's JSON with an empty revision)
/// and identity order, the metadata rules and every image.
pub fn validate_proxy_index(index: &ProxyIndex, base_url: &str, unsigned_json: &[u8]) -> (r: Result<
    (),
    ProxyIndexError,
>)
    ensures
        r == proxy_index_verdict(index@, base_url@, unsigned_json@),
{
    let base = match validate_public_base_url(base_url) {
        Ok(b) => b,
        Err(e) => {
            return Err(e);
        },
    };
    let revision = sha256(unsigned_json);
    let languages = language_flags(index.printing.as_slice());
    check_proxy_index(index, base.as_str(), revision.as_str(), languages.as_slice())
}

/// The error text of the first printing whose language `unic_langid`
/// refuses: the printing at which the metadata checks stop with
/// `InvalidLanguage`, since every earlier printing passed them.
pub open spec fn first_language_error(printings: Seq<ProxyPrintingView>) -> Option<Seq<char>>
    decreases printings.len(),
{
    if printings.len() == 0 {
        None
    } else {
        match language_identifier_error(printings[0].metadata.language) {
            Some(e) => Some(e),
            None => first_language_error(printings.drop_first()),
        }
    }
}

/// The text shown for a refused feed, with the parser's reason where a parser
/// refused: for a base URL that does not parse, the URL parser's own message;
/// for a language, "invalid metadata language: " and the language parser's
/// message; else the error's message.
pub open spec fn feed_error_text(error: ProxyIndexError, base_url: Seq<char>, printings: Seq<ProxyPrintingView>) -> Seq<
    char,
> {
    match error {
        ProxyIndexError::UnparsableBaseUrl => match url_parts_of(trim_end_slashes(base_url)) {
            Err(reason) => reason,
            Ok(_) => error.message_text(),
        },
        ProxyIndexError::InvalidLanguage => match first_language_error(printings) {
            Some(reason) => "invalid metadata language: "@ + reason,
            None => error.message_text(),
        },
        _ => error.message_text(),
    }
}

/// The parser's reason for the first printing whose language does not parse.
fn first_language_reason(printings: &[ProxyPrinting]) -> (r: Option<String>)
    ensures
        opt_string_view(r) == first_language_error(proxy_printing_views(printings@)),
{
    let ghost all = proxy_printing_views(printings@);
    assert(all.subrange(0, all.len() as int) =~= all);
    let mut i: usize = 0;
    while i < printings.len()
        invariant
            i <= printings@.len(),
            all == proxy_printing_views(printings@),
            first_language_error(all) == first_language_error(all.subrange(i as int, all.len() as int)),
        decreases printings@.len() - i,
    {
        let ghost rest = all.subrange(i as int, all.len() as int);
        assert(rest[0] == printings@[i as int]@);
        let reason = language_error(printings[i].metadata.language.as_str());
        if reason.is_some() {
            return reason;
        }
        assert(rest.drop_first() =~= all.subrange(i + 1, all.len() as int));
        i += 1;
    }
    assert(all.subrange(i as int, all.len() as int).len() == 0);
    None
}

/// The text shown for a refused feed (see `feed_error_text`), from the error
/// and the base URL and printings it was checked with.
pub fn feed_error_message(error: ProxyIndexError, base_url: &str, printings: &[ProxyPrinting]) -> (r: String)
    ensures
        r@ == feed_error_text(error, base_url@, proxy_printing_views(printings@)),
{
    match error {
        ProxyIndexError::UnparsableBaseUrl => {
            let trimmed = trimmed_end_slashes(base_url);
            match parse_url_parts(trimmed) {
                Err(reason) => reason,
                Ok(_) => String::from_str(error.message()),
            }
        },
        ProxyIndexError::InvalidLanguage => match first_language_reason(printings) {
            Some(reason) => {
                let mut text = String::from_str("invalid metadata language: ");
                text.append(reason.as_str());
                text
            },
            None => String::from_str(error.message()),
        },
        _ => String::from_str(error.message()),
    }
}

/// Every printing of an accepted feed has at least one face.
pub proof fn lemma_accepted_printings_have_faces(index: ProxyIndexView, base_url: Seq<char>, unsigned_json: Seq<u8>)
    requires
        proxy_index_verdict(index, base_url, unsigned_json) is Ok,
    ensures
        forall|i: int| 0 <= i < index.printings.len() ==> (#[trigger] index.printings[i]).metadata.faces.len() > 0,
{
    let langs = languages_valid(index.printings);
    let items = with_languages(index.printings, langs);
    assert forall|i: int| 0 <= i < index.printings.len() implies (#[trigger] index.printings[i]).metadata.faces.len() > 0 by {
        lemma_try_fold_ok_step(items, nothing_seen(), metadata_stepper(), i);
        assert(items[i] == (index.printings[i].metadata, langs[i]));
    }
}

} // verus!
