//! What a model is given: text, and images for models that read them.
//!
//! One [`Input`] is one user turn. Modalities are parts of it rather than
//! separate methods, so a new modality is a new [`InputPart`] variant and not
//! a new combination of method names.
use vstd::prelude::*;
use vstd::string::*;
use crate::message::{file_urls, to_file_url, Message, MessageView};
use crate::seqs::{group_views, views};
use crate::text::{join_texts, joined};

verus! {

broadcast use group_views;

/// An image the model is shown, referenced by path or URL.
///
/// The bytes are read by the backend at generation time. A local path becomes
/// a `file://` URL; an `http(s)://` or `file://` URL passes through.
#[derive(Debug, PartialEq, Eq)]
pub struct Image {
    source: String,
}

impl View for Image {
    type V = Seq<char>;

    closed spec fn view(&self) -> Seq<char> {
        self.source@
    }
}

impl Clone for Image {
    fn clone(&self) -> (out: Self)
        ensures
            out@ == self@,
    {
        Image { source: self.source.clone() }
    }
}

impl Image {
    /// From a path or URL.
    pub fn from_path(source: &str) -> (out: Self)
        ensures
            out@ == source@,
    {
        Image { source: source.to_owned() }
    }

    /// From a URL.
    pub fn from_url(url: &str) -> (out: Self)
        ensures
            out@ == url@,
    {
        Image { source: url.to_owned() }
    }

    /// The path or URL as given.
    pub fn source(&self) -> (out: &str)
        ensures
            out@ == self@,
    {
        self.source.as_str()
    }
}

/// One piece of an [`Input`].
#[derive(Debug, PartialEq, Eq)]
pub enum InputPart {
    /// Text.
    Text(String),
    /// An image, for a model that reads them.
    Image(Image),
}

/// A piece of an input, mathematically.
pub enum InputView {
    Text(Seq<char>),
    Image(Seq<char>),
}

/// An input, mathematically.
pub type PartsView = Seq<InputView>;

impl View for InputPart {
    type V = InputView;

    open spec fn view(&self) -> InputView {
        match self {
            InputPart::Text(text) => InputView::Text(text@),
            InputPart::Image(image) => InputView::Image(image@),
        }
    }
}

impl Clone for InputPart {
    fn clone(&self) -> (out: Self)
        ensures
            out@ == self@,
    {
        match self {
            InputPart::Text(text) => InputPart::Text(text.clone()),
            InputPart::Image(image) => InputPart::Image(image.clone()),
        }
    }
}

impl InputPart {
    /// A text part.
    pub fn text(text: &str) -> (out: Self)
        ensures
            out@ == InputView::Text(text@),
    {
        InputPart::Text(text.to_owned())
    }

    /// An image part, by path or URL.
    pub fn image(source: &str) -> (out: Self)
        ensures
            out@ == InputView::Image(source@),
    {
        InputPart::Image(Image::from_path(source))
    }
}

/// The texts of the text parts, in order.
pub open spec fn texts_of(parts: PartsView) -> Seq<Seq<char>>
    decreases parts.len(),
{
    if parts.len() == 0 {
        Seq::empty()
    } else {
        let before = texts_of(parts.drop_last());
        match parts.last() {
            InputView::Text(text) => before.push(text),
            InputView::Image(_) => before,
        }
    }
}

/// The text parts joined with newlines.
pub open spec fn text_of(parts: PartsView) -> Seq<char> {
    joined(texts_of(parts), "\n"@)
}

/// The image sources, in order.
pub open spec fn images_of(parts: PartsView) -> Seq<Seq<char>>
    decreases parts.len(),
{
    if parts.len() == 0 {
        Seq::empty()
    } else {
        let before = images_of(parts.drop_last());
        match parts.last() {
            InputView::Text(_) => before,
            InputView::Image(source) => before.push(source),
        }
    }
}

/// The transcript message an input becomes.
pub open spec fn as_message(parts: PartsView) -> MessageView {
    MessageView::user_with_images(text_of(parts), file_urls(images_of(parts)))
}

/// One user turn's worth of input.
#[derive(Debug, PartialEq, Eq)]
pub struct Input {
    parts: Vec<InputPart>,
}

impl View for Input {
    type V = PartsView;

    closed spec fn view(&self) -> PartsView {
        views(self.parts@)
    }
}

impl Clone for Input {
    fn clone(&self) -> (out: Self)
        ensures
            out@ == self@,
    {
        let parts = self.parts.clone();
        assert(views(parts@) =~= views(self.parts@));
        Input { parts }
    }
}

impl Default for Input {
    fn default() -> (out: Self)
        ensures
            out@ == Seq::<InputView>::empty(),
    {
        let out = Input { parts: Vec::new() };
        assert(out@ =~= Seq::<InputView>::empty());
        out
    }
}

impl Input {
    /// An empty input. Add parts with [`Input::text`] and [`Input::image`].
    pub fn new() -> (out: Self)
        ensures
            out@ == Seq::<InputView>::empty(),
    {
        Input::default()
    }

    /// Append text.
    pub fn text(self, text: &str) -> (out: Self)
        ensures
            out@ == self@.push(InputView::Text(text@)),
    {
        self.part(InputPart::text(text))
    }

    /// Append an image by path or URL.
    pub fn image(self, source: &str) -> (out: Self)
        ensures
            out@ == self@.push(InputView::Image(source@)),
    {
        self.part(InputPart::image(source))
    }

    /// Append an already-built part.
    pub fn part(self, part: InputPart) -> (out: Self)
        ensures
            out@ == self@.push(part@),
    {
        let ghost before = self@;
        let mut out = self;
        out.parts.push(part);
        assert(out@ =~= before.push(part@));
        out
    }

    /// The parts, in order.
    pub fn parts(&self) -> (out: &[InputPart])
        ensures
            views(out@) == self@,
    {
        self.parts.as_slice()
    }

    /// The text parts joined with newlines. The prompt a text-only view of
    /// this input would see.
    pub fn text_only(&self) -> (out: String)
        ensures
            out@ == text_of(self@),
    {
        let ghost all = views(self.parts@);
        let mut texts: Vec<String> = Vec::new();
        let mut i: usize = 0;
        assert(all.take(0) =~= Seq::empty());
        assert(views(texts@) =~= texts_of(all.take(0)));
        while i < self.parts.len()
            invariant
                i <= self.parts.len(),
                all == views(self.parts@),
                views(texts@) == texts_of(all.take(i as int)),
            decreases self.parts.len() - i,
        {
            assert(all.take(i + 1).drop_last() =~= all.take(i as int));
            assert(all.take(i + 1).last() == self.parts@[i as int]@);
            match &self.parts[i] {
                InputPart::Text(text) => {
                    texts.push(text.clone());
                    assert(views(texts@) =~= texts_of(all.take(i + 1)));
                },
                InputPart::Image(_) => {},
            }
            i += 1;
        }
        assert(all.take(self.parts.len() as int) =~= all);
        join_texts(&texts, "\n")
    }

    /// Whether any part is an image.
    pub fn has_images(&self) -> (out: bool)
        ensures
            out == (exists|i: int| 0 <= i < self@.len() && #[trigger] self@[i] is Image),
    {
        let mut i: usize = 0;
        while i < self.parts.len()
            invariant
                i <= self.parts.len(),
                forall|k: int| 0 <= k < i ==> !(#[trigger] self@[k] is Image),
            decreases self.parts.len() - i,
        {
            assert(self@[i as int] == self.parts@[i as int]@);
            match &self.parts[i] {
                InputPart::Image(_) => {
                    return true;
                },
                InputPart::Text(_) => {},
            }
            i += 1;
        }
        false
    }

    /// The transcript message this input becomes.
    pub fn into_message(self) -> (out: Message)
        ensures
            out@ == as_message(self@),
    {
        let ghost all = views(self.parts@);
        let text = self.text_only();
        let mut urls: Vec<String> = Vec::new();
        let mut i: usize = 0;
        assert(all.take(0) =~= Seq::empty());
        assert(views(urls@) =~= file_urls(images_of(all.take(0))));
        while i < self.parts.len()
            invariant
                i <= self.parts.len(),
                all == views(self.parts@),
                views(urls@) == file_urls(images_of(all.take(i as int))),
            decreases self.parts.len() - i,
        {
            assert(all.take(i + 1).drop_last() =~= all.take(i as int));
            assert(all.take(i + 1).last() == self.parts@[i as int]@);
            match &self.parts[i] {
                InputPart::Text(_) => {},
                InputPart::Image(image) => {
                    urls.push(to_file_url(image.source()));
                    assert(views(urls@) =~= file_urls(images_of(all.take(i + 1))));
                },
            }
            i += 1;
        }
        assert(all.take(self.parts.len() as int) =~= all);
        Message::user_with_images(text.as_str(), urls)
    }
}

// ── Laws ────────────────────────────────────────────────────────────────────

/// The texts and the images of an input are those of its parts in turn.
pub proof fn parts_add_up(a: PartsView, b: PartsView, words: Seq<char>)
    ensures
        texts_of(a + b) == texts_of(a) + texts_of(b),
        images_of(a + b) == images_of(a) + images_of(b),
        texts_of(a.push(InputView::Text(words))) == texts_of(a).push(words),
        texts_of(a.push(InputView::Image(words))) == texts_of(a),
        images_of(a.push(InputView::Image(words))) == images_of(a).push(words),
        images_of(a.push(InputView::Text(words))) == images_of(a),
    decreases b.len(),
{
    assert(a.push(InputView::Text(words)).drop_last() =~= a);
    assert(a.push(InputView::Image(words)).drop_last() =~= a);
    if b.len() == 0 {
        assert(a + b =~= a);
        assert(texts_of(a) + texts_of(b) =~= texts_of(a));
        assert(images_of(a) + images_of(b) =~= images_of(a));
    } else {
        parts_add_up(a, b.drop_last(), words);
        assert((a + b).drop_last() =~= a + b.drop_last());
        assert(texts_of(a + b) =~= texts_of(a) + texts_of(b));
        assert(images_of(a + b) =~= images_of(a) + images_of(b));
    }
}

/// An input of words alone is said by the user as it stands, and text parts
/// are parted by a line break.
pub proof fn words_are_said_as_they_stand(first: Seq<char>, second: Seq<char>)
    ensures
        as_message(seq![InputView::Text(first)]) == MessageView::user(first),
        as_message(seq![InputView::Text(first), InputView::Text(second)]) == MessageView::user(
            first + "\n"@ + second,
        ),
{
    let none: PartsView = Seq::empty();
    let one = seq![InputView::Text(first)];
    let two = seq![InputView::Text(first), InputView::Text(second)];
    parts_add_up(none, none, first);
    parts_add_up(one, none, second);
    assert(one =~= none.push(InputView::Text(first)));
    assert(two =~= one.push(InputView::Text(second)));
    assert(texts_of(one) =~= seq![first]);
    assert(texts_of(two).drop_last() =~= seq![first]);
    assert(joined(seq![first], "\n"@) == first);
}

} // verus!
