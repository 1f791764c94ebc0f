//! Message content: [`Content`], [`ContentPart`], [`ContentView`] and
//! [`MediaSource`].
use vstd::prelude::*;

verus! {

/// Where a media part's bytes live: at a URL, or inline as base64.
///
/// The MIME type on [`MediaSource::Base64`] is required by construction and
/// tells providers how to read the payload.
#[non_exhaustive]
#[derive(Debug, Clone, PartialEq, Eq)]
pub enum MediaSource {
    /// Referenced by URL (or a `data:` URI).
    Url {
        /// The location.
        url: String,
    },
    /// Carried inline, base64-encoded.
    Base64 {
        /// MIME type of the payload, e.g. `application/pdf`.
        mime_type: String,
        /// The payload, base64-encoded.
        data: String,
    },
}

impl MediaSource {
    /// Builds a [`MediaSource::Url`].
    pub fn url<U: Into<String>>(url: U) -> (r: Self)
        ensures
            r is Url,
            call_ensures(U::into, (url,), r->url),
    {
        MediaSource::Url { url: url.into() }
    }

    /// Builds a [`MediaSource::Base64`].
    pub fn base64<M: Into<String>, D: Into<String>>(mime_type: M, data: D) -> (r: Self)
        ensures
            r is Base64,
            call_ensures(M::into, (mime_type,), r->mime_type),
            call_ensures(D::into, (data,), r->data),
    {
        MediaSource::Base64 { mime_type: mime_type.into(), data: data.into() }
    }
}

/// One typed part of a multi-part [`Content`].
#[non_exhaustive]
#[derive(Debug, Clone, PartialEq, Eq)]
pub enum ContentPart {
    /// Plain text.
    Text {
        /// The text.
        text: String,
    },
    /// An image.
    Image {
        /// Where the image bytes live.
        source: MediaSource,
    },
    /// A file (document, PDF, ...).
    File {
        /// Where the file bytes live.
        source: MediaSource,
        /// Filename hint; some providers require one for inline payloads.
        name: Option<String>,
    },
}

impl ContentPart {
    /// Builds a [`ContentPart::Text`].
    pub fn text<T: Into<String>>(text: T) -> (r: Self)
        ensures
            r is Text,
            call_ensures(T::into, (text,), r->text),
    {
        ContentPart::Text { text: text.into() }
    }

    /// Builds a [`ContentPart::Image`].
    pub fn image(source: MediaSource) -> (r: Self)
        ensures
            r == (ContentPart::Image { source }),
    {
        ContentPart::Image { source }
    }

    /// Builds a [`ContentPart::Image`] from a URL.
    pub fn image_url<U: Into<String>>(url: U) -> (r: Self)
        ensures
            r is Image,
            r->Image_source is Url,
            call_ensures(U::into, (url,), r->Image_source->url),
    {
        ContentPart::Image { source: MediaSource::url(url) }
    }

    /// Builds a [`ContentPart::File`] without a filename hint.
    pub fn file(source: MediaSource) -> (r: Self)
        ensures
            r == (ContentPart::File { source, name: None }),
    {
        ContentPart::File { source, name: None }
    }
}

/// `image_url(u)` is `image(url(u))`: both give an image at a URL whose text
/// is what `u` converts to. `direct`, `source` and `built` are what
/// `image_url(u)`, `url(u)` and `image(source)` return; when `u`'s
/// conversion always gives the same text (as for `&str` and `String`), the
/// two images hold the same URL text.
pub proof fn lemma_image_url_is_image_of_url<U: Into<String>>(
    u: U,
    direct: ContentPart,
    source: MediaSource,
    built: ContentPart,
)
    requires
        direct is Image,
        direct->Image_source is Url,
        call_ensures(U::into, (u,), direct->Image_source->url),
        source is Url,
        call_ensures(U::into, (u,), source->url),
        built == (ContentPart::Image { source }),
        forall|a: String, b: String|
            #![trigger call_ensures(U::into, (u,), a), call_ensures(U::into, (u,), b)]
            call_ensures(U::into, (u,), a) && call_ensures(U::into, (u,), b) ==> a@ == b@,
    ensures
        built is Image,
        built->Image_source is Url,
        direct->Image_source->url@ == built->Image_source->url@,
{
}

/// A message's content: plain text, or multi-part (possibly multimodal).
#[derive(Debug, Clone, PartialEq, Eq)]
pub enum Content {
    /// Plain text, kept apart from [`Content::Parts`] for the common case.
    Text(String),
    /// Typed content parts, in order.
    Parts(Vec<ContentPart>),
}

/// A borrowed view of a [`Content`], returned by [`Content::pull`].
#[derive(Debug, Clone, Copy, PartialEq, Eq)]
pub enum ContentView<'a> {
    /// The text of a [`Content::Text`].
    Text(&'a str),
    /// The parts of a [`Content::Parts`].
    Parts(&'a [ContentPart]),
}

/// The parts a text becomes when it is promoted to [`Content::Parts`]: one
/// text part, or none when the text is empty.
pub open spec fn promoted_text(text: String) -> Seq<ContentPart> {
    if text@.len() == 0 {
        Seq::empty()
    } else {
        seq![ContentPart::Text { text }]
    }
}

impl Content {
    /// Pulls a borrowed view of the content: [`ContentView::Text`] for
    /// [`Content::Text`], and [`ContentView::Parts`] for [`Content::Parts`].
    pub fn pull(&self) -> (r: ContentView<'_>)
        ensures
            match *self {
                Content::Text(t) => r is Text && r->Text_0@ == t@,
                Content::Parts(p) => r is Parts && r->Parts_0@ == p@,
            },
    {
        match self {
            Content::Text(t) => ContentView::Text(t.as_str()),
            Content::Parts(p) => ContentView::Parts(p.as_slice()),
        }
    }

    /// Appends text: concatenated onto [`Content::Text`], appended as a new
    /// [`ContentPart::Text`] onto [`Content::Parts`].
    pub fn push_text<T: Into<String>>(&mut self, text: T)
        ensures
            exists|added: String|
                {
                    &&& call_ensures(T::into, (text,), added)
                    &&& match *old(self) {
                        Content::Text(t) => (*final(self)) is Text && (*final(self))->Text_0@ == t@
                            + added@,
                        Content::Parts(p) => *final(self) == Content::Parts(
                            (*final(self))->Parts_0,
                        ) && (*final(self))->Parts_0@ == p@.push(ContentPart::Text { text: added }),
                    }
                },
    {
        match self {
            Content::Text(t) => {
                let added: String = text.into();
                t.append(added.as_str());
            },
            Content::Parts(p) => p.push(ContentPart::text(text)),
        }
    }

    /// Appends a part, promoting [`Content::Text`] to [`Content::Parts`] if
    /// needed. The existing text is carried over as a leading
    /// [`ContentPart::Text`], and dropped when empty.
    pub fn push_part(&mut self, part: ContentPart)
        ensures
            *final(self) is Parts,
            match *old(self) {
                Content::Text(t) => (*final(self))->Parts_0@ == promoted_text(t).push(part),
                Content::Parts(p) => (*final(self))->Parts_0@ == p@.push(part),
            },
            (*final(self))->Parts_0@.last() == part,
            match *old(self) {
                Content::Text(t) => if t@.len() == 0 {
                    (*final(self))->Parts_0@.len() == 1
                } else {
                    (*final(self))->Parts_0@.len() == 2 && (*final(self))->Parts_0@[0] == (ContentPart::Text { text: t })
                },
                Content::Parts(p) => (*final(self))->Parts_0@.drop_last() == p@,
            },
    {
        match self {
            Content::Parts(p) => {
                p.push(part);
            },
            Content::Text(t) => {
                let mut text = String::new();
                std::mem::swap(&mut text, t);
                let mut parts: Vec<ContentPart> = Vec::new();
                if !text.as_str().is_empty() {
                    parts.push(ContentPart::text(text));
                }
                parts.push(part);
                *self = Content::Parts(parts);
            },
        }
    }
}

impl From<&str> for Content {
    /// Wraps a copy of `s` as [`Content::Text`].
    fn from(s: &str) -> (r: Self)
        ensures
            r is Text,
            r->Text_0@ == s@,
    {
        Content::Text(s.to_owned())
    }
}

impl vstd::std_specs::convert::FromSpecImpl<&str> for Content {
    // A `String` has no spec-level constructor from its characters, so the
    // conversion is described by the postcondition of `from` instead.
    open spec fn obeys_from_spec() -> bool {
        false
    }

    open spec fn from_spec(v: &str) -> Self {
        arbitrary()
    }
}

impl From<String> for Content {
    /// Wraps `s` as [`Content::Text`].
    fn from(s: String) -> (r: Self)
        ensures
            r == Content::Text(s),
    {
        Content::Text(s)
    }
}

impl vstd::std_specs::convert::FromSpecImpl<String> for Content {
    open spec fn obeys_from_spec() -> bool {
        true
    }

    open spec fn from_spec(v: String) -> Self {
        Content::Text(v)
    }
}

impl From<Vec<ContentPart>> for Content {
    /// Wraps `parts` as [`Content::Parts`].
    fn from(parts: Vec<ContentPart>) -> (r: Self)
        ensures
            r == Content::Parts(parts),
    {
        Content::Parts(parts)
    }
}

impl vstd::std_specs::convert::FromSpecImpl<Vec<ContentPart>> for Content {
    open spec fn obeys_from_spec() -> bool {
        true
    }

    open spec fn from_spec(v: Vec<ContentPart>) -> Self {
        Content::Parts(v)
    }
}

impl From<ContentPart> for Content {
    /// A single part as [`Content::Parts`].
    fn from(part: ContentPart) -> (r: Self)
        ensures
            r is Parts,
            r->Parts_0@ == seq![part],
    {
        let mut parts: Vec<ContentPart> = Vec::new();
        parts.push(part);
        Content::Parts(parts)
    }
}

impl vstd::std_specs::convert::FromSpecImpl<ContentPart> for Content {
    // A `Vec` has no spec-level constructor, so the conversion is described
    // by the postcondition of `from` instead.
    open spec fn obeys_from_spec() -> bool {
        false
    }

    open spec fn from_spec(v: ContentPart) -> Self {
        arbitrary()
    }
}

} // verus!
