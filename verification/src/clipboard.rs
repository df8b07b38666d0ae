use vstd::prelude::*;

use sha2::Digest;
use vstd::utf8::encode_utf8;

use crate::models::{copy_opt, opt_view, NewClipboardItem, SourceMetadata};
use crate::source::{clipboard_link_for_text, domain_from_url, html_link, is_web_url, url_domain};
use crate::text::{char_vec, starts_with, starts_with_str, str_eq, trim, trim_str};
use crate::models::result_view;

verus! {

// ---------------------------------------------------------------------------
// Content hashes.
// ---------------------------------------------------------------------------

/// The SHA-256 digest of `data`, written as lowercase hexadecimal.
pub uninterp spec fn sha256_hex(data: Seq<u8>) -> Seq<char>;

/// `sha2::Sha256::digest`, formatted with `{:x}`: the SHA-256 digest of `data` in
/// lowercase hexadecimal.  The digest itself is not stated; it is named by
/// `sha256_hex`.
#[verifier::external_body]
fn sha256_lower_hex(data: &[u8]) -> (r: String)
    ensures
        r@ == sha256_hex(data@),
{
    format!("{:x}", sha2::Sha256::digest(data))
}

fn append_bytes(v: &mut Vec<u8>, b: &[u8])
    ensures
        final(v)@ == old(v)@ + b@,
{
    let n = b.len();
    for i in 0..n
        invariant
            n == b@.len(),
            v@ == old(v)@ + b@.take(i as int),
    {
        v.push(b[i]);
        assert(b@.take(i + 1) == b@.take(i as int).push(b@[i as int]));
    }
    assert(b@.take(n as int) == b@);
}

/// The hash that identifies content of the given kind: the SHA-256 digest of the
/// kind's UTF-8 bytes, a zero byte, and the content's bytes.
pub open spec fn content_digest(kind: Seq<char>, bytes: Seq<u8>) -> Seq<char> {
    sha256_hex(encode_utf8(kind) + seq![0u8] + bytes)
}

/// The hash of `bytes` as content of kind `kind`.
pub fn hash_bytes(kind: &str, bytes: &[u8]) -> (r: String)
    ensures
        r@ == content_digest(kind@, bytes@),
{
    let mut data: Vec<u8> = Vec::new();
    append_bytes(&mut data, kind.as_bytes());
    data.push(0u8);
    append_bytes(&mut data, bytes);
    assert(data@ == encode_utf8(kind@) + seq![0u8] + bytes@);
    sha256_lower_hex(data.as_slice())
}

/// The number of bytes in a `usize`.
pub open spec fn usize_byte_count() -> nat {
    (usize::BITS / 8) as nat
}

/// The `n` bytes of `x` in little-endian order.
pub open spec fn le_bytes(x: nat, n: nat) -> Seq<u8>
    decreases n,
{
    if n == 0 {
        Seq::<u8>::empty()
    } else {
        seq![(x % 256) as u8] + le_bytes(x / 256, (n - 1) as nat)
    }
}

fn usize_le_bytes(x: usize) -> (r: Vec<u8>)
    ensures
        r@ == le_bytes(x as nat, usize_byte_count()),
{
    let n: u32 = usize::BITS / 8;
    let mut r: Vec<u8> = Vec::new();
    let mut v: usize = x;
    let mut i: u32 = 0;
    while i < n
        invariant
            n == usize::BITS / 8,
            i <= n,
            r@ + le_bytes(v as nat, (n - i) as nat) == le_bytes(x as nat, usize_byte_count()),
        decreases n - i,
    {
        let ghost before = r@;
        r.push((v % 256) as u8);
        assert(le_bytes(v as nat, (n - i) as nat) == seq![(v % 256) as u8] + le_bytes(
            (v / 256) as nat,
            (n - i - 1) as nat,
        ));
        assert(r@ + le_bytes((v / 256) as nat, (n - i - 1) as nat) == before + le_bytes(
            v as nat,
            (n - i) as nat,
        ));
        v = v / 256;
        i = i + 1;
    }
    assert(r@ + le_bytes(v as nat, 0) == r@);
    r
}

/// The hash of an image: its width and height as little-endian `usize` bytes,
/// then its RGBA pixel bytes, hashed as content of kind `image`.
pub open spec fn image_digest(width: usize, height: usize, rgba: Seq<u8>) -> Seq<char> {
    content_digest(
        "image"@,
        le_bytes(width as nat, usize_byte_count()) + le_bytes(height as nat, usize_byte_count()) + rgba,
    )
}

/// The hash of a clipboard image of `width` by `height` pixels.
pub fn hash_image(width: usize, height: usize, rgba: &[u8]) -> (r: String)
    ensures
        r@ == image_digest(width, height, rgba@),
{
    let mut data = usize_le_bytes(width);
    let h = usize_le_bytes(height);
    append_bytes(&mut data, h.as_slice());
    append_bytes(&mut data, rgba);
    hash_bytes("image", data.as_slice())
}

/// The hash of copied text: its trimmed UTF-8 bytes hashed as content of kind `text`.
pub open spec fn text_digest(text: Seq<char>) -> Seq<char> {
    content_digest("text"@, encode_utf8(trim(text)))
}

/// Text is recognised by its trimmed form: copies that differ only in leading
/// or trailing whitespace have the same hash, so text put on the clipboard by
/// this application (remembered under `text_hash`) is not recorded again when
/// the clipboard is read back.
pub proof fn lemma_text_digest_ignores_surrounding_whitespace(a: Seq<char>, b: Seq<char>)
    requires
        trim(a) == trim(b),
    ensures
        text_digest(a) == text_digest(b),
{
}

/// The hash under which copied `text` is recorded.
pub fn text_hash(text: &str) -> (r: String)
    ensures
        r@ == text_digest(text@),
{
    let trimmed = trim_str(text);
    hash_bytes("text", trimmed.as_str().as_bytes())
}

// ---------------------------------------------------------------------------
// The last clipboard content seen.
// ---------------------------------------------------------------------------

/// The hash of the clipboard content that was handled last, so that it is not
/// recorded twice.
pub struct ClipboardCache {
    last_hash: Option<String>,
}

impl View for ClipboardCache {
    type V = Option<Seq<char>>;

    closed spec fn view(&self) -> Option<Seq<char>> {
        opt_view(self.last_hash)
    }
}

impl Default for ClipboardCache {
    fn default() -> (r: ClipboardCache)
        ensures
            r@ is None,
    {
        ClipboardCache { last_hash: None }
    }
}

impl ClipboardCache {
    /// Records `hash` as the content handled last.
    pub fn remember(&mut self, hash: String)
        ensures
            final(self)@ == Some(hash@),
    {
        self.last_hash = Some(hash);
    }

    /// Whether `hash` is that of the content handled last.
    pub fn is_last(&self, hash: &str) -> (r: bool)
        ensures
            r == (self@ == Some(hash@)),
    {
        match &self.last_hash {
            Some(h) => str_eq(h.as_str(), hash),
            None => false,
        }
    }
}

/// Whether content with `hash` is new since the content handled last.
pub fn should_process(cache: &ClipboardCache, hash: &str) -> (r: bool)
    ensures
        r == (cache@ != Some(hash@)),
{
    !cache.is_last(hash)
}

/// What to do with the text found on the clipboard.
pub enum TextCapture {
    /// The clipboard holds no text but whitespace: look for an image instead.
    Blank,
    /// The text was handled last already.
    Seen,
    /// New text, trimmed, with its hash.
    Fresh { content: String, hash: String },
}

/// What to do with `text` found on the clipboard, given the content handled last.
pub fn plan_text_capture(cache: &ClipboardCache, text: &str) -> (r: TextCapture)
    ensures
        trim(text@).len() == 0 <==> r is Blank,
        r is Seen <==> (trim(text@).len() > 0 && cache@ == Some(text_digest(text@))),
        r matches TextCapture::Fresh { content, hash } ==> content@ == trim(text@) && hash@
            == text_digest(text@),
{
    let trimmed = trim_str(text);
    if trimmed.as_str().is_empty() {
        return TextCapture::Blank;
    }
    let hash = hash_bytes("text", trimmed.as_str().as_bytes());
    if should_process(cache, hash.as_str()) {
        TextCapture::Fresh { content: trimmed, hash }
    } else {
        TextCapture::Seen
    }
}

/// An entry copied back from the history is not recorded again: where the
/// cache holds the stored hash of a trimmed, non-empty text entry (the text hash
/// of its content), the same text read back from the clipboard, with or without
/// surrounding whitespace, is what `plan_text_capture` reports as seen.
pub proof fn lemma_copied_back_text_is_seen(
    content: Seq<char>,
    stored_hash: Seq<char>,
    clipboard_text: Seq<char>,
)
    requires
        content.len() > 0,
        trim(content) == content,
        stored_hash == content_digest("text"@, encode_utf8(content)),
        trim(clipboard_text) == content,
    ensures
        trim(clipboard_text).len() > 0 && Some(stored_hash) == Some(text_digest(clipboard_text)),
{
}

/// The end of a capture: the content's hash is remembered whether or not an
/// entry was saved for it, so content from a skipped source is not looked at
/// again; the result says whether the window is to be told of a change, which
/// is so only where an entry was saved.
pub fn finish_capture(cache: &mut ClipboardCache, hash: String, saved: bool) -> (notify: bool)
    ensures
        final(cache)@ == Some(hash@),
        notify == saved,
{
    cache.remember(hash);
    saved
}

/// What the last step of a capture found.
pub enum CaptureEvent {
    /// No text could be read from the clipboard.
    TextUnreadable,
    /// The clipboard's text is blank.
    TextBlank,
    /// The clipboard's text was handled last already.
    TextSeen,
    /// The clipboard holds new text.
    TextFresh,
    /// No image could be read from the clipboard.
    ImageUnreadable,
    /// The clipboard's image was handled last already.
    ImageSeen,
    /// The clipboard holds a new image.
    ImageFresh,
    /// The content comes from a source that is never recorded.
    SourceSkipped,
    /// The content comes from a source that may be recorded.
    SourceAdmitted,
    /// The entry was saved: added to the history (`true`), or only touched as a
    /// repeat of the newest entry (`false`).
    Saved(bool),
}

/// What a capture does next.
pub enum CaptureAction {
    /// Read the image on the clipboard.
    ReadImage,
    /// Find out where the content was copied from.
    DetectSource,
    /// Save the content's entry.
    Save,
    /// Remember the content's hash, and tell the window of a change where `notify`.
    Finish { notify: bool },
    /// End the capture.
    Stop,
}

/// The next step of a capture after `event`.  Text comes first: blank or
/// unreadable text leads on to the image, text already handled ends the capture,
/// and new text goes on to its source.  An image already handled, or none, ends
/// the capture; a new image goes on to its source.  Content from a skipped source
/// is remembered but never saved; other content is saved, and the window is told
/// of a change only where an entry was added.
pub fn capture_step(event: &CaptureEvent) -> (r: CaptureAction)
    ensures
        match *event {
            CaptureEvent::TextUnreadable => r is ReadImage,
            CaptureEvent::TextBlank => r is ReadImage,
            CaptureEvent::TextSeen => r is Stop,
            CaptureEvent::TextFresh => r is DetectSource,
            CaptureEvent::ImageUnreadable => r is Stop,
            CaptureEvent::ImageSeen => r is Stop,
            CaptureEvent::ImageFresh => r is DetectSource,
            CaptureEvent::SourceSkipped => r == (CaptureAction::Finish { notify: false }),
            CaptureEvent::SourceAdmitted => r is Save,
            CaptureEvent::Saved(added) => r == (CaptureAction::Finish { notify: added }),
        },
{
    match event {
        CaptureEvent::TextUnreadable => CaptureAction::ReadImage,
        CaptureEvent::TextBlank => CaptureAction::ReadImage,
        CaptureEvent::TextSeen => CaptureAction::Stop,
        CaptureEvent::TextFresh => CaptureAction::DetectSource,
        CaptureEvent::ImageUnreadable => CaptureAction::Stop,
        CaptureEvent::ImageSeen => CaptureAction::Stop,
        CaptureEvent::ImageFresh => CaptureAction::DetectSource,
        CaptureEvent::SourceSkipped => CaptureAction::Finish { notify: false },
        CaptureEvent::SourceAdmitted => CaptureAction::Save,
        CaptureEvent::Saved(added) => CaptureAction::Finish { notify: *added },
    }
}

/// The event that planning the clipboard's text (`None` where no text could be
/// read) amounts to.
pub fn text_capture_event(plan: &Option<TextCapture>) -> (r: CaptureEvent)
    ensures
        match *plan {
            None => r is TextUnreadable,
            Some(TextCapture::Blank) => r is TextBlank,
            Some(TextCapture::Seen) => r is TextSeen,
            Some(TextCapture::Fresh { .. }) => r is TextFresh,
        },
{
    match plan {
        None => CaptureEvent::TextUnreadable,
        Some(TextCapture::Blank) => CaptureEvent::TextBlank,
        Some(TextCapture::Seen) => CaptureEvent::TextSeen,
        Some(TextCapture::Fresh { .. }) => CaptureEvent::TextFresh,
    }
}

/// The event that planning the clipboard's image amounts to: `None` where no
/// image could be read, `Some(None)` where it was handled last already.
pub fn image_capture_event(plan: &Option<Option<String>>) -> (r: CaptureEvent)
    ensures
        match *plan {
            None => r is ImageUnreadable,
            Some(None) => r is ImageSeen,
            Some(Some(_)) => r is ImageFresh,
        },
{
    match plan {
        None => CaptureEvent::ImageUnreadable,
        Some(None) => CaptureEvent::ImageSeen,
        Some(Some(_)) => CaptureEvent::ImageFresh,
    }
}

/// The event that the source of the content amounts to.
pub fn source_event(source: &SourceMetadata) -> (r: CaptureEvent)
    ensures
        r is SourceSkipped <==> crate::source::mentions_skip_hint(crate::source::source_haystack(source)),
        r is SourceSkipped || r is SourceAdmitted,
{
    if crate::source::should_skip_source(source) {
        CaptureEvent::SourceSkipped
    } else {
        CaptureEvent::SourceAdmitted
    }
}

/// The hash of a clipboard image, where it differs from the content handled last.
pub fn plan_image_capture(cache: &ClipboardCache, width: usize, height: usize, rgba: &[u8]) -> (r:
    Option<String>)
    ensures
        r is Some <==> cache@ != Some(image_digest(width, height, rgba@)),
        r matches Some(h) ==> h@ == image_digest(width, height, rgba@),
{
    let hash = hash_image(width, height, rgba);
    if should_process(cache, hash.as_str()) {
        Some(hash)
    } else {
        None
    }
}


// ---------------------------------------------------------------------------
// Entries made from clipboard content.
// ---------------------------------------------------------------------------

/// Whether copied `content` is itself a link: an http(s) address with a host.
pub open spec fn is_link_content(content: Seq<char>) -> bool {
    url_domain(content) is Some && is_web_url(content)
}

/// Copied text is a link exactly when it names a host and begins with
/// `http://` or `https://`; so an `http://` address with a host is a link as
/// much as an `https://` one.
pub proof fn lemma_link_content_is_web_address_with_host(content: Seq<char>)
    ensures
        is_link_content(content) <==> (url_domain(content) is Some && (starts_with(
            content,
            "http://"@,
        ) || starts_with(content, "https://"@))),
{
}

/// Whether copied `content` is itself a link.  Where it is not, the HTML flavour
/// of the clipboard is consulted for the link it was copied from.
pub fn is_link_text(content: &str) -> (r: bool)
    ensures
        r == is_link_content(content@),
{
    let parsed = domain_from_url(content);
    let cs = char_vec(content);
    parsed.is_some() && (starts_with_str(&cs, "http://") || starts_with_str(&cs, "https://"))
}

/// `a`, or `b` where `a` is `None`.
pub open spec fn or_else(a: Option<Seq<char>>, b: Option<Seq<char>>) -> Option<Seq<char>> {
    match a {
        Some(x) => Some(x),
        None => b,
    }
}

/// The link that non-link `content` was copied from, per the clipboard's HTML.
pub open spec fn source_link(content: Seq<char>, clipboard_html: Option<String>) -> Option<
    (Seq<char>, Option<Seq<char>>, Option<Seq<char>>),
> {
    if is_link_content(content) {
        None
    } else {
        match clipboard_html {
            Some(html) => html_link(html@, content),
            None => None,
        }
    }
}

fn or_else_exec(a: Option<String>, b: &Option<String>) -> (r: Option<String>)
    ensures
        opt_view(r) == or_else(opt_view(a), opt_view(*b)),
{
    match a {
        Some(x) => Some(x),
        None => copy_opt(b),
    }
}

/// The entry recorded for copied text `content` (already trimmed), copied from
/// `source_meta`, with its `hash`.  Text that is an http(s) address is a `link`
/// entry; other text is a `text` entry whose source page is, where the
/// clipboard's HTML (`clipboard_html`) holds the link it was copied from, that
/// link, its title and its domain.
pub fn text_item(
    content: String,
    source_meta: SourceMetadata,
    hash: String,
    clipboard_html: Option<String>,
) -> (r: NewClipboardItem)
    ensures
        r.kind@ == if is_link_content(content@) {
            "link"@
        } else {
            "text"@
        },
        r.content@ == content@,
        opt_view(r.url) == if is_link_content(content@) {
            Some(content@)
        } else {
            None
        },
        r.source.app_name == source_meta.app_name,
        r.source.window_title == source_meta.window_title,
        match source_link(content@, clipboard_html) {
            Some((url, title, domain)) => {
                &&& opt_view(r.source.page_url) == Some(url)
                &&& opt_view(r.source.page_title) == or_else(title, opt_view(source_meta.page_title))
                &&& opt_view(r.source.domain) == or_else(domain, opt_view(source_meta.domain))
            },
            None => {
                &&& r.source.page_url == source_meta.page_url
                &&& r.source.page_title == source_meta.page_title
                &&& r.source.domain == source_meta.domain
            },
        },
        opt_view(r.domain) == or_else(url_domain(content@), opt_view(r.source.domain)),
        r.title == r.source.page_title,
        r.hash@ == hash@,
        r.blob is None,
        r.thumb is None,
{
    let parsed_domain = domain_from_url(content.as_str());
    let cs = char_vec(content.as_str());
    let is_link = parsed_domain.is_some() && (starts_with_str(&cs, "http://") || starts_with_str(
        &cs,
        "https://",
    ));
    let clipboard_link = if is_link {
        None
    } else {
        clipboard_link_for_text(clipboard_html, content.as_str())
    };
    let mut source = source_meta;
    match clipboard_link {
        Some((url, title, domain)) => {
            source.page_url = Some(url);
            source.page_title = or_else_exec(title, &source.page_title);
            source.domain = or_else_exec(domain, &source.domain);
        },
        None => {},
    }
    let kind = if is_link {
        String::from_str("link")
    } else {
        String::from_str("text")
    };
    let url = if is_link {
        Some(content.clone())
    } else {
        None
    };
    let domain = or_else_exec(parsed_domain, &source.domain);
    let title = copy_opt(&source.page_title);
    NewClipboardItem {
        kind,
        content,
        url,
        domain,
        title,
        source,
        hash,
        blob: None,
        thumb: None,
    }
}

/// The decimal digits.
pub open spec fn decimal_digits() -> Seq<char> {
    seq!['0', '1', '2', '3', '4', '5', '6', '7', '8', '9']
}

/// `n` written in decimal.
pub open spec fn decimal(n: nat) -> Seq<char>
    decreases n,
{
    if n < 10 {
        seq![decimal_digits()[n as int]]
    } else {
        decimal(n / 10).push(decimal_digits()[(n % 10) as int])
    }
}

fn digit_char(d: usize) -> (r: char)
    requires
        d < 10,
    ensures
        r == decimal_digits()[d as int],
{
    if d == 0 {
        '0'
    } else if d == 1 {
        '1'
    } else if d == 2 {
        '2'
    } else if d == 3 {
        '3'
    } else if d == 4 {
        '4'
    } else if d == 5 {
        '5'
    } else if d == 6 {
        '6'
    } else if d == 7 {
        '7'
    } else if d == 8 {
        '8'
    } else {
        '9'
    }
}

fn push_decimal(out: &mut Vec<char>, n: usize)
    ensures
        final(out)@ == old(out)@ + decimal(n as nat),
    decreases n,
{
    if n >= 10 {
        push_decimal(out, n / 10);
    }
    out.push(digit_char(n % 10));
}

/// The description of an image of `width` by `height` pixels.
pub open spec fn image_description(width: usize, height: usize) -> Seq<char> {
    "Image "@ + decimal(width as nat) + " x "@ + decimal(height as nat)
}

/// The entry recorded for a copied image of `width` by `height` pixels, copied
/// from `source`, with its `hash`, its PNG encoding and its PNG thumbnail.
pub fn image_item(
    width: usize,
    height: usize,
    source: SourceMetadata,
    hash: String,
    png: Vec<u8>,
    thumb: Vec<u8>,
) -> (r: NewClipboardItem)
    ensures
        r.kind@ == "image"@,
        r.content@ == image_description(width, height),
        r.url is None,
        r.domain == source.domain,
        r.title == source.page_title,
        r.source == source,
        r.hash@ == hash@,
        r.blob == Some(png),
        r.thumb == Some(thumb),
{
    let mut w: Vec<char> = Vec::new();
    push_decimal(&mut w, width);
    let mut h: Vec<char> = Vec::new();
    push_decimal(&mut h, height);
    let mut content = String::from_str("Image ");
    content.append(crate::text::string_of(&w).as_str());
    content.append(" x ");
    content.append(crate::text::string_of(&h).as_str());
    let domain = copy_opt(&source.domain);
    let title = copy_opt(&source.page_title);
    NewClipboardItem {
        kind: String::from_str("image"),
        content,
        url: None,
        domain,
        title,
        source,
        hash,
        blob: Some(png),
        thumb: Some(thumb),
    }
}


// ---------------------------------------------------------------------------
// Image encoding.
// ---------------------------------------------------------------------------

/// Whether an RGBA buffer of `len` bytes holds a `width` by `height` image: four
/// bytes per pixel, computed in `usize` without overflow, fit in the buffer
/// (`ImageBuffer::from_raw`).
pub open spec fn rgba_fits(width: u32, height: u32, len: nat) -> bool {
    &&& 4 * (width as int) <= usize::MAX
    &&& 4 * (width as int) * (height as int) <= len
}

/// Whether an RGBA buffer of `len` bytes holds exactly a `width` by `height`
/// image: four bytes per pixel, computed in `usize` without overflow, and no
/// more.  The PNG encoder asserts this exact length and panics on any other.
pub open spec fn rgba_exact(width: u32, height: u32, len: nat) -> bool {
    &&& 4 * (width as int) <= usize::MAX
    &&& 4 * (width as int) * (height as int) == len
}

/// The PNG encoding of the `width` by `height` RGBA image `rgba`, or the
/// encoder's error message.
pub uninterp spec fn png_of_rgba(width: u32, height: u32, rgba: Seq<u8>) -> Result<Seq<u8>, Seq<char>>;

/// The PNG encoding of the `width` by `height` RGBA image `rgba` after it is
/// scaled, keeping its aspect ratio, to fit `max_width` by `max_height`, or the
/// encoder's error message.
pub uninterp spec fn png_thumbnail_of_rgba(
    width: u32,
    height: u32,
    rgba: Seq<u8>,
    max_width: u32,
    max_height: u32,
) -> Result<Seq<u8>, Seq<char>>;

/// The decoded image in `bytes`: its width, height and RGBA pixel bytes, or the
/// decoder's error message.
pub uninterp spec fn rgba_of_image(bytes: Seq<u8>) -> Result<(u32, u32, Seq<u8>), Seq<char>>;

/// `image::RgbaImage::from_raw` and `DynamicImage::write_to` with
/// `ImageFormat::Png`: the PNG encoding of the image, or the encoder's error as a
/// string.  The encoding is not stated; it is named by `png_of_rgba`.
#[verifier::external_body]
fn encode_png(width: u32, height: u32, rgba: &[u8]) -> (r: Result<Vec<u8>, String>)
    requires
        rgba_exact(width, height, rgba@.len()),
    ensures
        result_view(r) == png_of_rgba(width, height, rgba@),
{
    let image = image::RgbaImage::from_raw(width, height, rgba.to_vec()).ok_or_else(String::new)?;
    let mut out = std::io::Cursor::new(Vec::new());
    image::DynamicImage::ImageRgba8(image).write_to(&mut out, image::ImageFormat::Png).map_err(
        |err| err.to_string(),
    )?;
    Ok(out.into_inner())
}

/// `image::RgbaImage::from_raw`, `DynamicImage::resize` with the triangle filter,
/// and `DynamicImage::write_to` with `ImageFormat::Png`: the PNG encoding of the
/// image scaled to fit `max_width` by `max_height`, or the encoder's error as a
/// string.  The result is not stated; it is named by `png_thumbnail_of_rgba`.
#[verifier::external_body]
fn encode_png_thumbnail(width: u32, height: u32, rgba: &[u8], max_width: u32, max_height: u32) -> (r:
    Result<Vec<u8>, String>)
    requires
        rgba_exact(width, height, rgba@.len()),
    ensures
        result_view(r) == png_thumbnail_of_rgba(width, height, rgba@, max_width, max_height),
{
    let image = image::RgbaImage::from_raw(width, height, rgba.to_vec()).ok_or_else(String::new)?;
    let thumb = image::DynamicImage::ImageRgba8(image).resize(
        max_width,
        max_height,
        image::imageops::FilterType::Triangle,
    );
    let mut out = std::io::Cursor::new(Vec::new());
    thumb.write_to(&mut out, image::ImageFormat::Png).map_err(|err| err.to_string())?;
    Ok(out.into_inner())
}

/// `image::load_from_memory`, `DynamicImage::to_rgba8` and `ImageBuffer::into_raw`:
/// the width, height and RGBA bytes of the image encoded in `bytes`, or the
/// decoder's error as a string.  Decoding is not stated; it is named by
/// `rgba_of_image`.
#[verifier::external_body]
fn decode_rgba(bytes: &[u8]) -> (r: Result<(u32, u32, Vec<u8>), String>)
    ensures
        rgba_of_image(bytes@) == match r {
            Ok((w, h, rgba)) => Ok((w, h, rgba@)),
            Err(e) => Err(e@),
        },
{
    let image = image::load_from_memory(bytes).map_err(|err| err.to_string())?.to_rgba8();
    let (width, height) = image.dimensions();
    Ok((width, height, image.into_raw()))
}

/// The width of image thumbnails.
pub const THUMB_WIDTH: u32 = 180;

/// The height of image thumbnails.
pub const THUMB_HEIGHT: u32 = 128;

/// The message given for an image whose buffer does not match its dimensions.
pub open spec fn invalid_dimensions_message() -> Seq<char> {
    "Clipboard image has invalid dimensions"@
}

/// The PNG encoding and the PNG thumbnail of a clipboard image of `width` by
/// `height` pixels (each taken modulo 2^32, as the image crate takes them).  A
/// buffer longer than the image it holds is left out: the PNG encoder panics on it.
pub fn image_to_pngs(width: usize, height: usize, rgba: &[u8]) -> (r: Result<(Vec<u8>, Vec<u8>), String>)
    requires
        rgba_fits(width as u32, height as u32, rgba@.len()) ==> rgba_exact(
            width as u32,
            height as u32,
            rgba@.len(),
        ),
    ensures
        !rgba_fits(width as u32, height as u32, rgba@.len()) ==> (r matches Err(m) && m@
            == invalid_dimensions_message()),
        rgba_fits(width as u32, height as u32, rgba@.len()) ==> match (
            png_of_rgba(width as u32, height as u32, rgba@),
            png_thumbnail_of_rgba(width as u32, height as u32, rgba@, THUMB_WIDTH, THUMB_HEIGHT),
        ) {
            (Ok(png), Ok(thumb)) => (r matches Ok((p, t)) && p@ == png && t@ == thumb),
            (Err(e), _) => (r matches Err(m) && m@ == e),
            (Ok(_), Err(e)) => (r matches Err(m) && m@ == e),
        },
{
    let w = #[verifier::truncate] (width as u32);
    let h = #[verifier::truncate] (height as u32);
    let len = rgba.len();
    let fits = match 4usize.checked_mul(w as usize) {
        Some(row) => match row.checked_mul(h as usize) {
            Some(needed) => {
                assert(needed == 4 * (w as int) * (h as int)) by (nonlinear_arith)
                    requires
                        row == 4 * (w as int),
                        needed == row * (h as int),
                ;
                needed <= len
            },
            None => {
                assert(4 * (w as int) * (h as int) > len) by (nonlinear_arith)
                    requires
                        row == 4 * (w as int),
                        row * (h as int) > usize::MAX,
                        len <= usize::MAX,
                ;
                false
            },
        },
        None => false,
    };
    if !fits {
        return Err(String::from_str("Clipboard image has invalid dimensions"));
    }
    let png = match encode_png(w, h, rgba) {
        Ok(p) => p,
        Err(e) => {
            return Err(e);
        },
    };
    let thumb = match encode_png_thumbnail(w, h, rgba, THUMB_WIDTH, THUMB_HEIGHT) {
        Ok(t) => t,
        Err(e) => {
            return Err(e);
        },
    };
    Ok((png, thumb))
}

/// What is put back on the system clipboard for a stored entry.
pub enum ClipboardPayload {
    /// Text, set as is.
    Text(String),
    /// An RGBA image of `width` by `height` pixels.
    Image { width: usize, height: usize, rgba: Vec<u8> },
}

/// The message given for an image entry without its image.
pub open spec fn missing_image_message() -> Seq<char> {
    "Image payload is missing"@
}

/// What to put on the system clipboard for a stored entry of `kind` with
/// `content` and, for images, the PNG `blob`.
pub fn clipboard_payload(kind: &str, content: String, blob: Option<Vec<u8>>) -> (r: Result<
    ClipboardPayload,
    String,
>)
    ensures
        kind@ != "image"@ ==> (r matches Ok(ClipboardPayload::Text(t)) && t@ == content@),
        kind@ == "image"@ && blob is None ==> (r matches Err(m) && m@ == missing_image_message()),
        kind@ == "image"@ && blob is Some ==> match rgba_of_image(blob.unwrap()@) {
            Ok((w, h, rgba)) => (r matches Ok(ClipboardPayload::Image { width, height, rgba: bytes })
                && width == w && height == h && bytes@ == rgba),
            Err(e) => (r matches Err(m) && m@ == e),
        },
{
    if !str_eq(kind, "image") {
        return Ok(ClipboardPayload::Text(content));
    }
    let blob = match blob {
        Some(b) => b,
        None => {
            return Err(String::from_str("Image payload is missing"));
        },
    };
    match decode_rgba(blob.as_slice()) {
        Ok((w, h, rgba)) => Ok(ClipboardPayload::Image { width: w as usize, height: h as usize, rgba }),
        Err(e) => Err(e),
    }
}

} // verus!
