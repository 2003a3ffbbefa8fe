//! Which file of a repo a reference means.
//!
//! With no tag the repo's GGUF files are looked at in this order: the file
//! tagged `Q4_K_M`; else the smallest file tagged `Q4`-anything; else the
//! smallest GGUF. A tag picks the file tagged with it, in whatever case, and
//! fails, naming the tags the repo does have, when there is none. Shards past
//! the first and `mmproj` files are never candidates.
use vstd::prelude::*;
use vstd::string::*;
use crate::hf::DEFAULT_QUANT;
use crate::seqs::{group_views, view_of, views};
use crate::text::{
    after_prefix, base_name, base_of, before_suffix, chars_of, drop_empty, either, filled,
    is_digit, digit_like, lower, lower_all, lower_chars, lower_each, no_later, part_of, pieces,
    same_chars, same_text, split_on, string_of, strip_prefix, strip_suffix, text_le,
    text_le_chain, text_le_same, text_le_total,
};

verus! {

broadcast use group_views;

/// How the name of one file of several ends.
pub const SHARD: &'static str = "(?i)-(\\d{5})-of-\\d{5}\\.gguf$";

/// What the first match of a pattern in a text says: the text before it, and
/// what the pattern's first group took. `None` where nothing matches.
pub uninterp spec fn first_match(
    pattern: Seq<char>,
    text: Seq<char>,
) -> Option<(Seq<char>, Option<Seq<char>>)>;

/// `regex::Regex::new` and `regex::Regex::captures`: the first match of a
/// pattern in a text, as the text before it and the first group's text.
///
/// Claimed: the outcome depends on the pattern and the text alone, and what
/// precedes the match is how the text begins. A pattern that does not compile
/// matches nothing.
#[verifier::external_body]
fn find_match(pattern: &str, text: &str) -> (out: Option<(String, Option<String>)>)
    ensures
        match out {
            Some(m) => first_match(pattern@, text@) == Some((m.0@, view_of(m.1)))
                && m.0@.is_prefix_of(text@),
            None => first_match(pattern@, text@) is None,
        },
{
    let re = regex::Regex::new(pattern).ok()?;
    let found = re.captures(text)?;
    let before = text[..found.get(0)?.start()].to_string();
    Some((before, found.get(1).map(|group| group.as_str().to_string())))
}

// ── Listed files ────────────────────────────────────────────────────────────

/// A GGUF in a repo, as listed by the Hub or found in the cache.
#[derive(Debug, PartialEq, Eq)]
pub struct GgufFile {
    /// The path within the repo.
    pub name: String,
    /// The size in bytes, when known.
    pub size: Option<u64>,
}

impl View for GgufFile {
    type V = (Seq<char>, Option<u64>);

    open spec fn view(&self) -> (Seq<char>, Option<u64>) {
        (self.name@, self.size)
    }
}

impl Clone for GgufFile {
    fn clone(&self) -> (out: Self)
        ensures
            out == *self,
    {
        GgufFile { name: self.name.clone(), size: self.size }
    }
}

/// Where a file stands among several that make up one model.
#[derive(Debug, PartialEq, Eq)]
pub struct Shard {
    /// The file's name up to the numbers.
    pub before: String,
    /// The file's number.
    pub number: Option<String>,
}

/// A shard's place, mathematically.
pub struct ShardView {
    pub before: Seq<char>,
    pub number: Option<Seq<char>>,
}

impl View for Shard {
    type V = ShardView;

    open spec fn view(&self) -> ShardView {
        ShardView { before: self.before@, number: view_of(self.number) }
    }
}

/// A file, with its place among shards where it is one.
#[derive(Debug, PartialEq, Eq)]
pub struct ListedFile {
    pub file: GgufFile,
    pub shard: Option<Shard>,
}

/// A listed file, mathematically.
pub struct FileView {
    pub name: Seq<char>,
    pub size: Option<u64>,
    pub shard: Option<ShardView>,
}

impl View for ListedFile {
    type V = FileView;

    open spec fn view(&self) -> FileView {
        FileView { name: self.file.name@, size: self.file.size, shard: view_of(self.shard) }
    }
}

/// The shard's place a file's name tells.
pub open spec fn shard_in(name: Seq<char>) -> Option<ShardView> {
    match first_match(SHARD@, base_name(name)) {
        Some((before, number)) => Some(ShardView { before, number }),
        None => None,
    }
}

/// A file as listed.
pub open spec fn listed_file(file: (Seq<char>, Option<u64>)) -> FileView {
    FileView { name: file.0, size: file.1, shard: shard_in(file.0) }
}

/// Files as listed.
pub open spec fn listing(files: Seq<(Seq<char>, Option<u64>)>) -> Seq<FileView> {
    files.map_values(|f: (Seq<char>, Option<u64>)| listed_file(f))
}

/// The shard's place a file's name tells.
pub fn shard_of(name: &str) -> (out: Option<Shard>)
    ensures
        view_of(out) == shard_in(name@),
{
    let base = string_of(base_of(chars_of(name).as_slice()).as_slice());
    match find_match(SHARD, base.as_str()) {
        Some((before, number)) => Some(Shard { before, number }),
        None => None,
    }
}

/// Files with their places among shards.
pub fn list_files(files: &[GgufFile]) -> (out: Vec<ListedFile>)
    ensures
        views(out@) == listing(views(files@)),
{
    let mut out: Vec<ListedFile> = Vec::new();
    let mut i: usize = 0;
    while i < files.len()
        invariant
            i <= files.len(),
            out.len() == i,
            forall|k: int| 0 <= k < i ==> (#[trigger] out@[k])@ == listed_file(files@[k]@),
        decreases files.len() - i,
    {
        let file = files[i].clone();
        let shard = shard_of(files[i].name.as_str());
        out.push(ListedFile { file, shard });
        i += 1;
    }
    assert(views(out@) =~= listing(views(files@)));
    out
}

// ── Reading names ───────────────────────────────────────────────────────────

/// A name without its `.gguf`, in small or in capitals.
pub open spec fn without_extension(base: Seq<char>) -> Seq<char> {
    match before_suffix(base, ".gguf"@) {
        Some(stem) => stem,
        None => match before_suffix(base, ".GGUF"@) {
            Some(stem) => stem,
            None => base,
        },
    }
}

/// The parts of a text between `-` and `.`.
pub open spec fn dashed(s: Seq<char>) -> Seq<Seq<char>> {
    filled(pieces(s, either('-', '.')))
}

/// Whether a part, in small letters, reads as a quantization.
pub open spec fn reads_as_quant(part: Seq<char>) -> bool {
    match after_prefix(part, "iq"@) {
        Some(rest) => rest.len() > 0 && is_digit(rest[0]),
        None => match after_prefix(part, "q"@) {
            Some(rest) => rest.len() > 0 && is_digit(rest[0]),
            None => part == "f16"@ || part == "f32"@ || part == "bf16"@ || part == "fp16"@ || part
                == "fp32"@,
        },
    }
}

/// The last of some parts that reads as a quantization.
pub open spec fn last_quant(parts: Seq<Seq<char>>) -> Option<int>
    decreases parts.len(),
{
    if parts.len() == 0 {
        None
    } else if reads_as_quant(lower(parts.last())) {
        Some(parts.len() - 1)
    } else {
        last_quant(parts.drop_last())
    }
}

/// The tag some parts carry: the last that reads as a quantization, with a
/// `UD` before it kept.
pub open spec fn tag_in(parts: Seq<Seq<char>>) -> Option<Seq<char>> {
    match last_quant(parts) {
        Some(i) => if i > 0 && lower(parts[i - 1]) == "ud"@ {
            Some(parts[i - 1] + "-"@ + parts[i])
        } else {
            Some(parts[i])
        },
        None => None,
    }
}

/// Whether some parts follow one another among others.
pub open spec fn run_in(want: Seq<Seq<char>>, parts: Seq<Seq<char>>) -> bool {
    exists|i: int| 0 <= i && i + want.len() <= parts.len() && is_run(want, parts, i)
}

/// Whether some parts stand at a place among others.
pub open spec fn is_run(want: Seq<Seq<char>>, parts: Seq<Seq<char>>, i: int) -> bool {
    parts.subrange(i, i + want.len()) == want
}

/// The number of the first shard.
pub open spec fn first_number() -> Seq<char> {
    "00001"@
}

impl FileView {
    /// Whether the file is a model: a `.gguf` that is neither a projector nor
    /// a shard past the first.
    pub open spec fn candidate(self) -> bool {
        let base = lower(base_name(self.name));
        &&& ".gguf"@.is_suffix_of(base)
        &&& !"mmproj"@.is_prefix_of(base)
        &&& self.shard matches Some(shard) ==> shard.number == Some(first_number())
    }

    /// Whether the file is a projector.
    pub open spec fn is_projector(self) -> bool {
        let base = lower(base_name(self.name));
        ".gguf"@.is_suffix_of(base) && "mmproj"@.is_prefix_of(base)
    }

    /// The parts of the file's name.
    pub open spec fn parts(self) -> Seq<Seq<char>> {
        dashed(
            match self.shard {
                Some(shard) => shard.before,
                None => without_extension(base_name(self.name)),
            },
        )
    }

    /// The tag the file carries, in its own casing.
    pub open spec fn tag(self) -> Option<Seq<char>> {
        tag_in(self.parts())
    }

    /// Whether the file carries a tag, in whatever case, as a whole.
    pub open spec fn has_tag(self, tag: Seq<char>) -> bool {
        let want = lower_all(dashed(tag));
        want.len() > 0 && run_in(want, lower_all(self.parts()))
    }

    /// Whether the file's tag is a `Q4` of some kind.
    pub open spec fn is_q4(self) -> bool {
        self.tag() matches Some(tag) && ("q4"@.is_prefix_of(lower(tag)) || "ud-q4"@.is_prefix_of(
            lower(tag),
        ))
    }

    /// The size, an unknown one the largest.
    pub open spec fn size_key(self) -> u64 {
        match self.size {
            Some(size) => size,
            None => u64::MAX,
        }
    }

    /// Whether the file comes no later than another: by size, then by name.
    pub open spec fn no_later(self, other: FileView) -> bool {
        self.size_key() < other.size_key() || (self.size_key() == other.size_key() && text_le(
            self.name,
            other.name,
        ))
    }
}

/// A name's stem as parts.
fn split_parts(stem: &[char]) -> (out: Vec<Vec<char>>)
    ensures
        views(out@) == dashed(stem@),
{
    drop_empty(split_on(stem, '-', '.'))
}

fn strip_extension(base: &[char]) -> (out: Vec<char>)
    ensures
        out@ == without_extension(base@),
{
    match strip_suffix(base, ".gguf") {
        Some(stem) => stem,
        None => match strip_suffix(base, ".GGUF") {
            Some(stem) => stem,
            None => {
                let all = part_of(base, 0, base.len());
                assert(all@ =~= base@);
                all
            },
        },
    }
}

fn is_text(s: &[char], text: &str) -> (out: bool)
    ensures
        out == (s@ == text@),
{
    same_chars(s, chars_of(text).as_slice())
}

/// Whether a part reads as a quantization: `q4_k_m`, `iq3_xxs`, `f16`.
fn looks_like_quant(part: &[char]) -> (out: bool)
    ensures
        out == reads_as_quant(part@),
{
    match strip_prefix(part, "iq") {
        Some(rest) => rest.len() > 0 && digit_like(rest[0]),
        None => match strip_prefix(part, "q") {
            Some(rest) => rest.len() > 0 && digit_like(rest[0]),
            None => is_text(part, "f16") || is_text(part, "f32") || is_text(part, "bf16")
                || is_text(part, "fp16") || is_text(part, "fp32"),
        },
    }
}

/// The tag some parts carry.
fn find_tag(parts: &Vec<Vec<char>>) -> (out: Option<Vec<char>>)
    ensures
        view_of(out) == tag_in(views(parts@)),
{
    let ghost all = views(parts@);
    let mut i: usize = parts.len();
    assert(all.take(parts.len() as int) =~= all);
    while i > 0
        invariant
            i <= parts.len(),
            all == views(parts@),
            last_quant(all) == last_quant(all.take(i as int)),
        decreases i,
    {
        let at: usize = i - 1;
        assert(all.take(i as int).drop_last() =~= all.take(at as int));
        assert(all.take(i as int).last() == parts@[at as int]@);
        if looks_like_quant(lower_chars(parts[at].as_slice()).as_slice()) {
            let tail = part_of(parts[at].as_slice(), 0, parts[at].len());
            assert(tail@ =~= parts@[at as int]@);
            if at > 0 && is_text(lower_chars(parts[at - 1].as_slice()).as_slice(), "ud") {
                let lead: usize = at - 1;
                let mut tag = part_of(parts[lead].as_slice(), 0, parts[lead].len());
                assert(tag@ =~= parts@[lead as int]@);
                let mut dash = chars_of("-");
                let mut tail = tail;
                tag.append(&mut dash);
                tag.append(&mut tail);
                return Some(tag);
            }
            return Some(tail);
        }
        i = at;
    }
    assert(all.take(0) =~= Seq::empty());
    None
}

/// Whether `want` stands at place `i` of `parts`.
fn run_at(want: &Vec<Vec<char>>, parts: &Vec<Vec<char>>, i: usize) -> (out: bool)
    requires
        i + want.len() <= parts.len(),
    ensures
        out == is_run(views(want@), views(parts@), i as int),
{
    let ghost part = views(parts@).subrange(i as int, i + want.len());
    let mut k: usize = 0;
    while k < want.len()
        invariant
            k <= want.len(),
            i + want.len() <= parts.len(),
            part == views(parts@).subrange(i as int, i + want.len()),
            forall|j: int| 0 <= j < k ==> part[j] == (#[trigger] want@[j])@,
        decreases want.len() - k,
    {
        if !same_chars(want[k].as_slice(), parts[i + k].as_slice()) {
            assert(part[k as int] != views(want@)[k as int]);
            return false;
        }
        k += 1;
    }
    assert(part =~= views(want@));
    true
}

fn finds_run(want: &Vec<Vec<char>>, parts: &Vec<Vec<char>>) -> (out: bool)
    ensures
        out == run_in(views(want@), views(parts@)),
{
    if want.len() > parts.len() {
        return false;
    }
    let last: usize = parts.len() - want.len();
    let mut i: usize = 0;
    loop
        invariant
            i <= last,
            last == parts.len() - want.len(),
            want.len() <= parts.len(),
            forall|j: int| 0 <= j < i ==> !is_run(views(want@), views(parts@), j),
        decreases last - i,
    {
        if run_at(want, parts, i) {
            return true;
        }
        if i == last {
            return false;
        }
        i += 1;
    }
}

impl ListedFile {
    /// The last part of the file's path, in small letters.
    fn small_base(&self) -> (out: Vec<char>)
        ensures
            out@ == lower(base_name(self@.name)),
    {
        lower_chars(base_of(chars_of(self.file.name.as_str()).as_slice()).as_slice())
    }

    /// Whether the file is a model candidate: a `.gguf` that is not a
    /// projector and not a later shard.
    pub fn is_candidate(&self) -> (out: bool)
        ensures
            out == self@.candidate(),
    {
        let base = self.small_base();
        if strip_suffix(base.as_slice(), ".gguf").is_none() || strip_prefix(
            base.as_slice(),
            "mmproj",
        ).is_some() {
            return false;
        }
        match &self.shard {
            None => true,
            Some(shard) => match &shard.number {
                Some(number) => same_text(number.as_str(), "00001"),
                None => false,
            },
        }
    }

    /// Whether the file is a projector.
    pub fn is_projector(&self) -> (out: bool)
        ensures
            out == self@.is_projector(),
    {
        let base = self.small_base();
        strip_suffix(base.as_slice(), ".gguf").is_some() && strip_prefix(
            base.as_slice(),
            "mmproj",
        ).is_some()
    }

    fn parts(&self) -> (out: Vec<Vec<char>>)
        ensures
            views(out@) == self@.parts(),
    {
        match &self.shard {
            Some(shard) => split_parts(chars_of(shard.before.as_str()).as_slice()),
            None => {
                let base = base_of(chars_of(self.file.name.as_str()).as_slice());
                split_parts(strip_extension(base.as_slice()).as_slice())
            },
        }
    }

    fn tag_chars(&self) -> (out: Option<Vec<char>>)
        ensures
            view_of(out) == self@.tag(),
    {
        find_tag(&self.parts())
    }

    /// The tag the file carries, in the file's own casing: the last part that
    /// reads as a quantization, with a `UD-` before it kept.
    pub fn tag(&self) -> (out: Option<String>)
        ensures
            view_of(out) == self@.tag(),
    {
        match self.tag_chars() {
            Some(tag) => Some(string_of(tag.as_slice())),
            None => None,
        }
    }

    /// Whether the file carries a tag, in whatever case, as a whole.
    pub fn has_tag(&self, tag: &str) -> (out: bool)
        ensures
            out == self@.has_tag(tag@),
    {
        let want = lower_each(&split_parts(chars_of(tag).as_slice()));
        assert(views(want@).len() == want.len());
        want.len() > 0 && finds_run(&want, &lower_each(&self.parts()))
    }

    /// Whether the file's tag is a `Q4` of some kind.
    pub fn is_q4(&self) -> (out: bool)
        ensures
            out == self@.is_q4(),
    {
        match self.tag_chars() {
            Some(tag) => {
                let small = lower_chars(tag.as_slice());
                strip_prefix(small.as_slice(), "q4").is_some() || strip_prefix(
                    small.as_slice(),
                    "ud-q4",
                ).is_some()
            },
            None => false,
        }
    }

    /// Whether the file comes no later than another: by size, then by name.
    pub fn no_later(&self, other: &ListedFile) -> (out: bool)
        ensures
            out == self@.no_later(other@),
    {
        let a: u64 = self.file.size.unwrap_or(u64::MAX);
        let b: u64 = other.file.size.unwrap_or(u64::MAX);
        a < b || (a == b && name_no_later(self, other))
    }
}

fn name_no_later(a: &ListedFile, b: &ListedFile) -> (out: bool)
    ensures
        out == text_le(a@.name, b@.name),
{
    no_later(
        chars_of(a.file.name.as_str()).as_slice(),
        chars_of(b.file.name.as_str()).as_slice(),
    )
}

/// The tag a file carries, in the file's own casing.
pub fn quant_of(name: &str) -> (out: Option<String>)
    ensures
        view_of(out) == listed_file((name@, None)).tag(),
{
    let file = ListedFile {
        file: GgufFile { name: name.to_owned(), size: None },
        shard: shard_of(name),
    };
    file.tag()
}

// ── Choosing a file ─────────────────────────────────────────────────────────

/// What [`choose_gguf`] decided.
#[derive(Debug, PartialEq, Eq)]
pub enum Choice {
    /// A file tagged exactly as asked (or as [`DEFAULT_QUANT`]).
    Exact(String),
    /// No file carries the default tag, so this is the next best: the
    /// smallest `Q4`-anything, else the smallest GGUF.
    Fallback(String),
    /// A tag was asked for and nothing carries it; these tags exist.
    QuantMissing(Vec<String>),
    /// Nothing in the list is a loadable GGUF.
    NoGguf,
}

/// A choice, mathematically.
pub enum ChoiceView {
    Exact(Seq<char>),
    Fallback(Seq<char>),
    QuantMissing(Seq<Seq<char>>),
    NoGguf,
}

impl View for Choice {
    type V = ChoiceView;

    open spec fn view(&self) -> ChoiceView {
        match self {
            Choice::Exact(name) => ChoiceView::Exact(name@),
            Choice::Fallback(name) => ChoiceView::Fallback(name@),
            Choice::QuantMissing(tags) => ChoiceView::QuantMissing(views(tags@)),
            Choice::NoGguf => ChoiceView::NoGguf,
        }
    }
}

/// Which of the files a model may come from.
#[derive(Clone, Copy)]
pub enum Tier {
    /// Those that carry the wanted tag.
    Tagged,
    /// Those that carry a `Q4` tag.
    Q4,
    /// Every model file.
    Any,
}

/// Whether a file belongs to a tier.
pub open spec fn belongs(file: FileView, tier: Tier, wanted: Seq<char>) -> bool {
    file.candidate() && match tier {
        Tier::Tagged => file.has_tag(wanted),
        Tier::Q4 => file.is_q4(),
        Tier::Any => true,
    }
}

/// Whether a tier has a file at all.
pub open spec fn inhabited(files: Seq<FileView>, tier: Tier, wanted: Seq<char>) -> bool {
    exists|i: int| 0 <= i < files.len() && belongs(#[trigger] files[i], tier, wanted)
}

/// Whether a name is that of a tier's first file: smallest by size, then by
/// name, an unknown size coming last.
pub open spec fn first_of(
    files: Seq<FileView>,
    tier: Tier,
    wanted: Seq<char>,
    name: Seq<char>,
) -> bool {
    exists|i: int|
        {
            &&& 0 <= i < files.len()
            &&& belongs(#[trigger] files[i], tier, wanted)
            &&& files[i].name == name
            &&& forall|k: int|
                0 <= k < files.len() && belongs(files[k], tier, wanted) ==> files[i].no_later(
                    #[trigger] files[k],
                )
        }
}

/// Whether a model file carries a tag that reads as another does.
pub open spec fn carries(file: FileView, tag: Seq<char>) -> bool {
    file.candidate() && (file.tag() matches Some(own) && lower(own) == lower(tag))
}

/// Whether a file is the first by name of those that carry its tag.
pub open spec fn names_tag(files: Seq<FileView>, i: int, tag: Seq<char>) -> bool {
    &&& files[i].candidate()
    &&& files[i].tag() == Some(tag)
    &&& forall|k: int|
        0 <= k < files.len() && carries(files[k], tag) ==> text_le(
            files[i].name,
            #[trigger] files[k].name,
        )
}

/// Whether a tag is spelled as the first file, by name, that carries it does.
pub open spec fn spelled(files: Seq<FileView>, tag: Seq<char>) -> bool {
    exists|i: int| 0 <= i < files.len() && #[trigger] names_tag(files, i, tag)
}

/// Whether some tags are in order, none of them twice in any casing.
pub open spec fn in_order(tags: Seq<Seq<char>>) -> bool {
    forall|i: int, j: int|
        #![trigger tags[i], tags[j]]
        0 <= i < j < tags.len() ==> text_le(lower(tags[i]), lower(tags[j])) && lower(tags[i])
            != lower(tags[j])
}

/// Whether some tags are those the model files carry: each once, in order,
/// spelled as the first file that carries it does.
pub open spec fn lists_tags(files: Seq<FileView>, tags: Seq<Seq<char>>) -> bool {
    &&& in_order(tags)
    &&& forall|i: int| 0 <= i < tags.len() ==> spelled(files, #[trigger] tags[i])
    &&& forall|k: int|
        0 <= k < files.len() && (#[trigger] files[k]).candidate() && files[k].tag() is Some
            ==> listed_among(tags, files[k].tag()->0)
}

/// Whether a tag is among some, in some casing.
pub open spec fn listed_among(tags: Seq<Seq<char>>, tag: Seq<char>) -> bool {
    exists|i: int| 0 <= i < tags.len() && lower(#[trigger] tags[i]) == lower(tag)
}

/// The tag to look for.
pub open spec fn wanted_tag(quant: Option<Seq<char>>) -> Seq<char> {
    match quant {
        Some(tag) => tag,
        None => DEFAULT_QUANT@,
    }
}

/// Whether a choice is the one the files and the tag asked for call for.
pub open spec fn chosen(
    files: Seq<FileView>,
    quant: Option<Seq<char>>,
    choice: ChoiceView,
) -> bool {
    let wanted = wanted_tag(quant);
    if !inhabited(files, Tier::Any, wanted) {
        choice is NoGguf
    } else if inhabited(files, Tier::Tagged, wanted) {
        choice matches ChoiceView::Exact(name) && first_of(files, Tier::Tagged, wanted, name)
    } else if quant is Some {
        choice matches ChoiceView::QuantMissing(tags) && lists_tags(files, tags)
    } else if inhabited(files, Tier::Q4, wanted) {
        choice matches ChoiceView::Fallback(name) && first_of(files, Tier::Q4, wanted, name)
    } else {
        choice matches ChoiceView::Fallback(name) && first_of(files, Tier::Any, wanted, name)
    }
}

fn in_tier(file: &ListedFile, tier: Tier, wanted: &str) -> (out: bool)
    ensures
        out == belongs(file@, tier, wanted@),
{
    file.is_candidate() && match tier {
        Tier::Tagged => file.has_tag(wanted),
        Tier::Q4 => file.is_q4(),
        Tier::Any => true,
    }
}

/// The order of files is one: two files each no later than the other have one
/// name, and what comes no later than a file comes no later than what follows.
proof fn files_in_line(a: FileView, b: FileView, c: FileView)
    ensures
        a.no_later(a),
        a.no_later(b) || b.no_later(a),
        a.no_later(b) && b.no_later(a) ==> a.name == b.name,
        a.no_later(b) && b.no_later(c) ==> a.no_later(c),
{
    text_le_total(a.name, a.name);
    text_le_total(a.name, b.name);
    if text_le(a.name, b.name) && text_le(b.name, a.name) {
        text_le_same(a.name, b.name);
    }
    if text_le(a.name, b.name) && text_le(b.name, c.name) {
        text_le_chain(a.name, b.name, c.name);
    }
}

/// A tier's first file.
fn first_in_tier(files: &Vec<ListedFile>, tier: Tier, wanted: &str) -> (out: Option<usize>)
    ensures
        match out {
            Some(i) => i < files.len() && inhabited(views(files@), tier, wanted@) && first_of(
                views(files@),
                tier,
                wanted@,
                files@[i as int]@.name,
            ),
            None => !inhabited(views(files@), tier, wanted@),
        },
{
    let ghost all = views(files@);
    let mut best: Option<usize> = None;
    let mut n: usize = 0;
    while n < files.len()
        invariant
            n <= files.len(),
            all == views(files@),
            match best {
                Some(i) => {
                    &&& i < n
                    &&& belongs(all[i as int], tier, wanted@)
                    &&& forall|k: int|
                        0 <= k < n && belongs(all[k], tier, wanted@) ==> all[i as int].no_later(
                            #[trigger] all[k],
                        )
                },
                None => forall|k: int| 0 <= k < n ==> !belongs(#[trigger] all[k], tier, wanted@),
            },
        decreases files.len() - n,
    {
        let ghost before = best;
        if in_tier(&files[n], tier, wanted) {
            assert(belongs(all[n as int], tier, wanted@));
            let better = match best {
                Some(i) => !files[i].no_later(&files[n]),
                None => true,
            };
            proof {
                files_in_line(all[n as int], all[n as int], all[n as int]);
                match before {
                    Some(i) => {
                        files_in_line(all[i as int], all[n as int], all[n as int]);
                        if better {
                            assert forall|k: int|
                                0 <= k < n && belongs(all[k], tier, wanted@) implies all[n as int]
                                .no_later(#[trigger] all[k]) by {
                                files_in_line(all[n as int], all[i as int], all[k]);
                            }
                        }
                    },
                    None => {},
                }
            }
            if better {
                best = Some(n);
            }
        }
        n += 1;
    }
    best
}

/// The tags the model files carry, in order, each once and spelled as the
/// first file that carries it does.
fn tags_present(files: &Vec<ListedFile>) -> (out: Vec<String>)
    ensures
        lists_tags(views(files@), views(out@)),
{
    let ghost all = views(files@);
    let mut out: Vec<String> = Vec::new();
    let mut picks: Vec<usize> = Vec::new();
    let mut n: usize = 0;
    while n < files.len()
        invariant
            n <= files.len(),
            all == views(files@),
            picks.len() == out.len(),
            tags_so_far(all, n as int, views(out@), picks@),
        decreases files.len() - n,
    {
        let ghost tags = views(out@);
        let ghost before = picks@;
        let tag = if files[n].is_candidate() {
            files[n].tag_chars()
        } else {
            None
        };
        match tag {
            None => {
                assert(all[n as int] == files@[n as int]@);
                proof {
                    no_tag_added(all, n as int, tags, before);
                }
            },
            Some(tag) => {
                let small = lower_chars(tag.as_slice());
                let mut at: usize = 0;
                while at < out.len() && !no_later(
                    small.as_slice(),
                    lower_chars(chars_of(out[at].as_str()).as_slice()).as_slice(),
                )
                    invariant
                        at <= out.len(),
                        tags == views(out@),
                        small@ == lower(tag@),
                        forall|j: int|
                            0 <= j < at ==> !text_le(lower(tag@), lower(#[trigger] tags[j])),
                    decreases out.len() - at,
                {
                    at += 1;
                }
                let known = at < out.len() && same_chars(
                    small.as_slice(),
                    lower_chars(chars_of(out[at].as_str()).as_slice()).as_slice(),
                );
                if known {
                    let seen: usize = picks[at];
                    assert(seen == before[at as int]);
                    if !name_no_later(&files[seen], &files[n]) {
                        out.set(at, string_of(tag.as_slice()));
                        picks.set(at, n);
                        assert(views(out@) =~= tags.update(at as int, tag@));
                    }
                    proof {
                        known_tag_added(all, n as int, tags, before, tag@, at as int);
                    }
                } else {
                    out.insert(at, string_of(tag.as_slice()));
                    picks.insert(at, n);
                    assert(views(out@) =~= tags.insert(at as int, tag@));
                    proof {
                        new_tag_added(all, n as int, tags, before, tag@, at as int);
                    }
                }
            },
        }
        n += 1;
    }
    proof {
        let tags = views(out@);
        assert(all.take(n as int) =~= all);
        assert forall|i: int| 0 <= i < tags.len() implies spelled(all, #[trigger] tags[i]) by {
            assert(0 <= picks@[i] < n);
            assert(names_tag(all, picks@[i] as int, tags[i]));
        }
    }
    out
}

/// Whether tags, and the files they come from, are right for the first `n`
/// files.
spec fn tags_so_far(
    files: Seq<FileView>,
    n: int,
    tags: Seq<Seq<char>>,
    picks: Seq<usize>,
) -> bool {
    &&& in_order(tags)
    &&& picks.len() == tags.len()
    &&& forall|i: int|
        0 <= i < tags.len() ==> {
            &&& 0 <= #[trigger] picks[i] < n
            &&& names_tag(files.take(n), picks[i] as int, tags[i])
        }
    &&& forall|k: int|
        0 <= k < n && (#[trigger] files[k]).candidate() && files[k].tag() is Some ==> listed_among(
            tags,
            files[k].tag()->0,
        )
}

/// A file without a tag changes nothing.
proof fn no_tag_added(files: Seq<FileView>, n: int, tags: Seq<Seq<char>>, picks: Seq<usize>)
    requires
        0 <= n < files.len(),
        tags_so_far(files, n, tags, picks),
        !files[n].candidate() || files[n].tag() is None,
    ensures
        tags_so_far(files, n + 1, tags, picks),
{
    let less = files.take(n);
    let more = files.take(n + 1);
    assert forall|i: int| 0 <= i < tags.len() implies 0 <= #[trigger] picks[i] < n + 1 && names_tag(
        more,
        picks[i] as int,
        tags[i],
    ) by {
        assert(names_tag(less, picks[i] as int, tags[i]));
        assert forall|k: int| 0 <= k < more.len() && carries(more[k], tags[i]) implies text_le(
            more[picks[i] as int].name,
            #[trigger] more[k].name,
        ) by {
            assert(k < n);
            assert(less[k] == more[k]);
        }
    }
}

/// A file whose tag is known changes at most that tag's spelling.
proof fn known_tag_added(
    files: Seq<FileView>,
    n: int,
    tags: Seq<Seq<char>>,
    picks: Seq<usize>,
    tag: Seq<char>,
    at: int,
)
    requires
        0 <= n < files.len(),
        n <= usize::MAX,
        tags_so_far(files, n, tags, picks),
        files[n].candidate(),
        files[n].tag() == Some(tag),
        0 <= at < tags.len(),
        lower(tag) == lower(tags[at]),
    ensures
        text_le(files[picks[at] as int].name, files[n].name) ==> tags_so_far(
            files,
            n + 1,
            tags,
            picks,
        ),
        !text_le(files[picks[at] as int].name, files[n].name) ==> tags_so_far(
            files,
            n + 1,
            tags.update(at, tag),
            picks.update(at, n as usize),
        ),
{
    let less = files.take(n);
    let more = files.take(n + 1);
    let seen = picks[at] as int;
    let stays = text_le(files[seen].name, files[n].name);
    let tags2 = if stays {
        tags
    } else {
        tags.update(at, tag)
    };
    let picks2 = if stays {
        picks
    } else {
        picks.update(at, n as usize)
    };
    assert(names_tag(less, seen, tags[at]));
    assert forall|i: int, j: int| 0 <= i < j < tags2.len() implies text_le(
        lower(#[trigger] tags2[i]),
        lower(#[trigger] tags2[j]),
    ) && lower(tags2[i]) != lower(tags2[j]) by {
        assert(lower(tags2[i]) == lower(tags[i]));
        assert(lower(tags2[j]) == lower(tags[j]));
    }
    assert forall|i: int| 0 <= i < tags2.len() implies 0 <= #[trigger] picks2[i] < n + 1
        && names_tag(more, picks2[i] as int, tags2[i]) by {
        assert(0 <= picks[i] < n);
        assert(names_tag(less, picks[i] as int, tags[i]));
        text_le_total(files[n].name, files[n].name);
        text_le_total(files[seen].name, files[n].name);
        assert forall|k: int| 0 <= k < more.len() && carries(more[k], tags2[i]) implies text_le(
            more[picks2[i] as int].name,
            #[trigger] more[k].name,
        ) by {
            if k < n {
                assert(less[k] == more[k]);
                assert(carries(less[k], tags[i]));
                assert(text_le(less[picks[i] as int].name, less[k].name));
                if !stays && i == at {
                    text_le_chain(files[n].name, files[seen].name, files[k].name);
                }
            } else if i != at {
                assert(lower(tags[i]) == lower(tags[at]));
                if i < at {
                    assert(lower(tags[i]) != lower(tags[at]));
                } else {
                    assert(lower(tags[at]) != lower(tags[i]));
                }
            }
        }
    }
    assert forall|k: int|
        0 <= k < n + 1 && (#[trigger] files[k]).candidate() && files[k].tag() is Some implies
        listed_among(tags2, files[k].tag()->0) by {
        if k < n {
            let j = choose|j: int|
                0 <= j < tags.len() && lower(#[trigger] tags[j]) == lower(files[k].tag()->0);
            assert(lower(tags2[j]) == lower(files[k].tag()->0));
        } else {
            assert(lower(tags2[at]) == lower(tag));
        }
    }
}

/// A file whose tag is new adds it, in its place.
proof fn new_tag_added(
    files: Seq<FileView>,
    n: int,
    tags: Seq<Seq<char>>,
    picks: Seq<usize>,
    tag: Seq<char>,
    at: int,
)
    requires
        0 <= n < files.len(),
        n <= usize::MAX,
        tags_so_far(files, n, tags, picks),
        files[n].candidate(),
        files[n].tag() == Some(tag),
        0 <= at <= tags.len(),
        forall|j: int| 0 <= j < at ==> !text_le(lower(tag), lower(#[trigger] tags[j])),
        at < tags.len() ==> text_le(lower(tag), lower(tags[at])) && lower(tag) != lower(tags[at]),
    ensures
        tags_so_far(files, n + 1, tags.insert(at, tag), picks.insert(at, n as usize)),
{
    let less = files.take(n);
    let more = files.take(n + 1);
    let tags2 = tags.insert(at, tag);
    let picks2 = picks.insert(at, n as usize);
    text_le_total(lower(tag), lower(tag));
    assert forall|j: int| 0 <= j < tags.len() implies lower(#[trigger] tags[j]) != lower(tag) && (
    if j < at {
        text_le(lower(tags[j]), lower(tag))
    } else {
        text_le(lower(tag), lower(tags[j]))
    }) by {
        if j < at {
            text_le_total(lower(tags[j]), lower(tag));
        } else if j > at {
            assert(text_le(lower(tags[at]), lower(tags[j])));
            text_le_chain(lower(tag), lower(tags[at]), lower(tags[j]));
            if lower(tags[j]) == lower(tag) {
                text_le_same(lower(tag), lower(tags[at]));
            }
        }
    }
    assert forall|i: int, j: int| 0 <= i < j < tags2.len() implies text_le(
        lower(#[trigger] tags2[i]),
        lower(#[trigger] tags2[j]),
    ) && lower(tags2[i]) != lower(tags2[j]) by {
        let a = if i < at {
            i
        } else {
            i - 1
        };
        let b = if j < at {
            j
        } else {
            j - 1
        };
        if i == at {
            assert(tags2[j] == tags[b]);
        } else if j == at {
            assert(tags2[i] == tags[a]);
        } else {
            assert(tags2[i] == tags[a]);
            assert(tags2[j] == tags[b]);
        }
    }
    assert forall|i: int| 0 <= i < tags2.len() implies 0 <= #[trigger] picks2[i] < n + 1
        && names_tag(more, picks2[i] as int, tags2[i]) by {
        let a = if i < at {
            i
        } else {
            i - 1
        };
        if i != at {
            assert(tags2[i] == tags[a]);
            assert(picks2[i] == picks[a]);
            assert(names_tag(less, picks[a] as int, tags[a]));
        }
        text_le_total(files[n].name, files[n].name);
        assert forall|k: int| 0 <= k < more.len() && carries(more[k], tags2[i]) implies text_le(
            more[picks2[i] as int].name,
            #[trigger] more[k].name,
        ) by {
            if k < n {
                assert(less[k] == more[k]);
                if i == at {
                    assert(files[k].candidate());
                    let j = choose|j: int|
                        0 <= j < tags.len() && lower(#[trigger] tags[j]) == lower(
                            files[k].tag()->0,
                        );
                    assert(lower(tags[j]) != lower(tag));
                } else {
                    assert(carries(less[k], tags[a]));
                    assert(text_le(less[picks[a] as int].name, less[k].name));
                }
            } else if i != at {
                assert(lower(tags[a]) != lower(tag));
            }
        }
    }
    assert forall|k: int|
        0 <= k < n + 1 && (#[trigger] files[k]).candidate() && files[k].tag() is Some implies
        listed_among(tags2, files[k].tag()->0) by {
        if k < n {
            let j = choose|j: int|
                0 <= j < tags.len() && lower(#[trigger] tags[j]) == lower(files[k].tag()->0);
            let b = if j < at {
                j
            } else {
                j + 1
            };
            assert(tags2[b] == tags[j]);
        } else {
            assert(tags2[at] == tag);
        }
    }
}

/// The choice among files whose shards are known.
pub fn choose_listed(files: &Vec<ListedFile>, quant: Option<&str>) -> (out: Choice)
    ensures
        chosen(views(files@), (match quant {
            Some(tag) => Some(tag@),
            None => None,
        }), out@),
{
    let wanted = quant.unwrap_or(DEFAULT_QUANT);
    let any = first_in_tier(files, Tier::Any, wanted);
    match any {
        None => Choice::NoGguf,
        Some(smallest) => {
            match first_in_tier(files, Tier::Tagged, wanted) {
                Some(i) => Choice::Exact(files[i].file.name.clone()),
                None => {
                    if quant.is_some() {
                        Choice::QuantMissing(tags_present(files))
                    } else {
                        match first_in_tier(files, Tier::Q4, wanted) {
                            Some(i) => Choice::Fallback(files[i].file.name.clone()),
                            None => Choice::Fallback(files[smallest].file.name.clone()),
                        }
                    }
                },
            }
        },
    }
}

/// Pick the model file for a reference from what the repo holds.
///
/// `quant` is the requested tag; `None` asks for [`DEFAULT_QUANT`] with the
/// fallbacks. Order, given no tag: the file tagged `Q4_K_M`; else the
/// smallest tagged `Q4*`; else the smallest GGUF. Given a tag: the file
/// tagged with it, else [`Choice::QuantMissing`] with the tags present.
/// Ties are broken by name so the answer is stable across listings.
pub fn choose_gguf(files: &[GgufFile], quant: Option<&str>) -> (out: Choice)
    ensures
        chosen(listing(views(files@)), (match quant {
            Some(tag) => Some(tag@),
            None => None,
        }), out@),
{
    choose_listed(&list_files(files), quant)
}

// ── The projector ───────────────────────────────────────────────────────────

/// Whether a file is a projector and, where asked, one tagged `F16`.
pub open spec fn projects(file: FileView, half: bool) -> bool {
    file.is_projector() && (half ==> lower_all(file.parts()).contains("f16"@))
}

/// Whether there is such a projector.
pub open spec fn projector_in(files: Seq<FileView>, half: bool) -> bool {
    exists|i: int| 0 <= i < files.len() && projects(#[trigger] files[i], half)
}

/// Whether a name is the first by name of such projectors.
pub open spec fn first_projector(files: Seq<FileView>, half: bool, name: Seq<char>) -> bool {
    exists|i: int|
        {
            &&& 0 <= i < files.len()
            &&& projects(#[trigger] files[i], half)
            &&& files[i].name == name
            &&& forall|k: int|
                0 <= k < files.len() && projects(files[k], half) ==> text_le(
                    files[i].name,
                    #[trigger] files[k].name,
                )
        }
}

/// Whether a projector is the one the files call for.
pub open spec fn projector_chosen(files: Seq<FileView>, choice: Option<Seq<char>>) -> bool {
    if projector_in(files, true) {
        choice matches Some(name) && first_projector(files, true, name)
    } else if projector_in(files, false) {
        choice matches Some(name) && first_projector(files, false, name)
    } else {
        choice is None
    }
}

fn has_part(parts: &Vec<Vec<char>>, want: &str) -> (out: bool)
    ensures
        out == views(parts@).contains(want@),
{
    let ghost all = views(parts@);
    let mut i: usize = 0;
    while i < parts.len()
        invariant
            i <= parts.len(),
            all == views(parts@),
            forall|k: int| 0 <= k < i ==> #[trigger] all[k] != want@,
        decreases parts.len() - i,
    {
        if is_text(parts[i].as_slice(), want) {
            assert(all[i as int] == want@);
            return true;
        }
        i += 1;
    }
    false
}

/// The first projector by name, `F16` ones only where asked.
fn find_projector(files: &Vec<ListedFile>, half: bool) -> (out: Option<usize>)
    ensures
        match out {
            Some(i) => i < files.len() && projector_in(views(files@), half) && first_projector(
                views(files@),
                half,
                files@[i as int]@.name,
            ),
            None => !projector_in(views(files@), half),
        },
{
    let ghost all = views(files@);
    let mut best: Option<usize> = None;
    let mut n: usize = 0;
    while n < files.len()
        invariant
            n <= files.len(),
            all == views(files@),
            match best {
                Some(i) => {
                    &&& i < n
                    &&& projects(all[i as int], half)
                    &&& forall|k: int|
                        0 <= k < n && projects(all[k], half) ==> text_le(
                            all[i as int].name,
                            #[trigger] all[k].name,
                        )
                },
                None => forall|k: int| 0 <= k < n ==> !projects(#[trigger] all[k], half),
            },
        decreases files.len() - n,
    {
        let ghost before = best;
        if files[n].is_projector() && (!half || has_part(&lower_each(&files[n].parts()), "f16")) {
            assert(projects(all[n as int], half));
            let better = match best {
                Some(i) => !name_no_later(&files[i], &files[n]),
                None => true,
            };
            proof {
                text_le_total(all[n as int].name, all[n as int].name);
                match before {
                    Some(i) => {
                        text_le_total(all[i as int].name, all[n as int].name);
                        if better {
                            assert forall|k: int| 0 <= k < n && projects(all[k], half) implies
                            text_le(all[n as int].name, #[trigger] all[k].name) by {
                                text_le_chain(all[n as int].name, all[i as int].name, all[k].name);
                            }
                        }
                    },
                    None => {},
                }
            }
            if better {
                best = Some(n);
            }
        }
        n += 1;
    }
    best
}

/// The projector among files whose shards are known.
pub fn choose_listed_mmproj(files: &Vec<ListedFile>) -> (out: Option<String>)
    ensures
        projector_chosen(views(files@), view_of(out)),
{
    match find_projector(files, true) {
        Some(i) => Some(files[i].file.name.clone()),
        None => match find_projector(files, false) {
            Some(i) => Some(files[i].file.name.clone()),
            None => None,
        },
    }
}

/// The projector to pair with the weights, when the repo has one: an
/// `mmproj*.gguf`, preferring an F16 one, then the first by name.
pub fn choose_mmproj(files: &[GgufFile]) -> (out: Option<String>)
    ensures
        projector_chosen(listing(views(files@)), view_of(out)),
{
    choose_listed_mmproj(&list_files(files))
}

// ── Laws ────────────────────────────────────────────────────────────────────

/// Whether two listings hold the same files, in whatever order.
pub open spec fn same_files(
    a: Seq<(Seq<char>, Option<u64>)>,
    b: Seq<(Seq<char>, Option<u64>)>,
) -> bool {
    forall|f: (Seq<char>, Option<u64>)| #[trigger] a.contains(f) <==> b.contains(f)
}

/// What is listed in one place is listed in the other.
proof fn listed_in_both(
    a: Seq<(Seq<char>, Option<u64>)>,
    b: Seq<(Seq<char>, Option<u64>)>,
    i: int,
) -> (j: int)
    requires
        same_files(a, b),
        0 <= i < a.len(),
    ensures
        0 <= j < b.len(),
        listing(b)[j] == listing(a)[i],
{
    assert(a.contains(a[i]));
    assert(b.contains(a[i]));
    let j = choose|j: int| 0 <= j < b.len() && b[j] == a[i];
    j
}

proof fn flipped(a: Seq<(Seq<char>, Option<u64>)>, b: Seq<(Seq<char>, Option<u64>)>)
    requires
        same_files(a, b),
    ensures
        same_files(b, a),
{
    assert forall|f: (Seq<char>, Option<u64>)| #[trigger] b.contains(f) <==> a.contains(f) by {
        assert(a.contains(f) <==> b.contains(f));
    }
}

proof fn inhabited_alike(
    a: Seq<(Seq<char>, Option<u64>)>,
    b: Seq<(Seq<char>, Option<u64>)>,
    tier: Tier,
    wanted: Seq<char>,
)
    requires
        same_files(a, b),
        inhabited(listing(a), tier, wanted),
    ensures
        inhabited(listing(b), tier, wanted),
{
    let i = choose|i: int|
        0 <= i < listing(a).len() && belongs(#[trigger] listing(a)[i], tier, wanted);
    let j = listed_in_both(a, b, i);
    assert(belongs(listing(b)[j], tier, wanted));
}

proof fn first_alike(
    a: Seq<(Seq<char>, Option<u64>)>,
    b: Seq<(Seq<char>, Option<u64>)>,
    tier: Tier,
    wanted: Seq<char>,
    x: Seq<char>,
    y: Seq<char>,
)
    requires
        same_files(a, b),
        first_of(listing(a), tier, wanted, x),
        first_of(listing(b), tier, wanted, y),
    ensures
        x == y,
{
    let fa = listing(a);
    let fb = listing(b);
    let i = choose|i: int|
        {
            &&& 0 <= i < fa.len()
            &&& belongs(#[trigger] fa[i], tier, wanted)
            &&& fa[i].name == x
            &&& forall|k: int|
                0 <= k < fa.len() && belongs(fa[k], tier, wanted) ==> fa[i].no_later(
                    #[trigger] fa[k],
                )
        };
    let j = choose|j: int|
        {
            &&& 0 <= j < fb.len()
            &&& belongs(#[trigger] fb[j], tier, wanted)
            &&& fb[j].name == y
            &&& forall|k: int|
                0 <= k < fb.len() && belongs(fb[k], tier, wanted) ==> fb[j].no_later(
                    #[trigger] fb[k],
                )
        };
    flipped(a, b);
    let k = listed_in_both(a, b, i);
    let l = listed_in_both(b, a, j);
    assert(fb[j].no_later(fb[k]));
    assert(fa[i].no_later(fa[l]));
    files_in_line(fa[i], fb[j], fa[i]);
}

/// Whether some texts are in strict order.
spec fn rising(s: Seq<Seq<char>>) -> bool {
    forall|i: int, j: int|
        #![trigger s[i], s[j]]
        0 <= i < j < s.len() ==> text_le(s[i], s[j]) && s[i] != s[j]
}

/// Two strict orders of the same texts are one.
proof fn one_order(s: Seq<Seq<char>>, t: Seq<Seq<char>>)
    requires
        rising(s),
        rising(t),
        forall|x: Seq<char>| #[trigger] s.contains(x) <==> t.contains(x),
    ensures
        s == t,
    decreases s.len(),
{
    if s.len() == 0 {
        if t.len() > 0 {
            assert(t.contains(t[0]));
            assert(s.contains(t[0]));
        }
        assert(s =~= t);
    } else {
        assert(s.contains(s[s.len() - 1]));
        assert(t.contains(s.last()));
        assert(t.contains(t[t.len() - 1]));
        assert(s.contains(t.last()));
        let i = choose|i: int| 0 <= i < s.len() && s[i] == t.last();
        let j = choose|j: int| 0 <= j < t.len() && t[j] == s.last();
        if i != s.len() - 1 {
            assert(text_le(s[i], s[s.len() - 1]));
        }
        if j != t.len() - 1 {
            assert(text_le(t[j], t[t.len() - 1]));
        }
        if i != s.len() - 1 && j != t.len() - 1 {
            text_le_same(s.last(), t.last());
        }
        assert(s.last() == t.last());
        let s1 = s.drop_last();
        let t1 = t.drop_last();
        assert forall|x: Seq<char>| #[trigger] s1.contains(x) <==> t1.contains(x) by {
            if s1.contains(x) {
                let p = choose|p: int| 0 <= p < s1.len() && s1[p] == x;
                assert(s[p] == x && x != s[s.len() - 1]);
                assert(s.contains(x));
                assert(t.contains(x));
                let q = choose|q: int| 0 <= q < t.len() && t[q] == x;
                assert(t1[q] == x);
            }
            if t1.contains(x) {
                let p = choose|p: int| 0 <= p < t1.len() && t1[p] == x;
                assert(t[p] == x && x != t[t.len() - 1]);
                assert(t.contains(x));
                assert(s.contains(x));
                let q = choose|q: int| 0 <= q < s.len() && s[q] == x;
                assert(s1[q] == x);
            }
        }
        one_order(s1, t1);
        assert(s =~= s1.push(s.last()));
        assert(t =~= t1.push(t.last()));
    }
}

/// The tags of one listing are tags of the other.
proof fn tags_in_both(
    a: Seq<(Seq<char>, Option<u64>)>,
    b: Seq<(Seq<char>, Option<u64>)>,
    s: Seq<Seq<char>>,
    t: Seq<Seq<char>>,
)
    requires
        same_files(a, b),
        lists_tags(listing(a), s),
        lists_tags(listing(b), t),
    ensures
        forall|x: Seq<char>| #[trigger] lower_all(s).contains(x) ==> lower_all(t).contains(x),
{
    assert forall|x: Seq<char>| #[trigger] lower_all(s).contains(x) implies lower_all(t).contains(
        x,
    ) by {
        let p = choose|p: int| 0 <= p < s.len() && lower_all(s)[p] == x;
        assert(spelled(listing(a), s[p]));
        let i = choose|i: int|
            0 <= i < listing(a).len() && #[trigger] names_tag(listing(a), i, s[p]);
        let j = listed_in_both(a, b, i);
        assert(listing(b)[j].candidate());
        assert(listed_among(t, s[p]));
        let q = choose|q: int| 0 <= q < t.len() && lower(#[trigger] t[q]) == lower(s[p]);
        assert(lower_all(t)[q] == x);
    }
}

/// Two spellings of one tag are one.
proof fn spelled_alike(
    a: Seq<(Seq<char>, Option<u64>)>,
    b: Seq<(Seq<char>, Option<u64>)>,
    x: Seq<char>,
    y: Seq<char>,
)
    requires
        same_files(a, b),
        spelled(listing(a), x),
        spelled(listing(b), y),
        lower(x) == lower(y),
    ensures
        x == y,
{
    let fa = listing(a);
    let fb = listing(b);
    let i = choose|i: int| 0 <= i < fa.len() && #[trigger] names_tag(fa, i, x);
    let j = choose|j: int| 0 <= j < fb.len() && #[trigger] names_tag(fb, j, y);
    flipped(a, b);
    let k = listed_in_both(a, b, i);
    let l = listed_in_both(b, a, j);
    assert(carries(fb[k], y));
    assert(carries(fa[l], x));
    assert(text_le(fb[j].name, fb[k].name));
    assert(text_le(fa[i].name, fa[l].name));
    text_le_same(fa[i].name, fb[j].name);
    assert(a[i].0 == b[j].0);
}

/// The file chosen, and the tags reported where none is, depend on what the
/// repo holds and not on the order it is listed in.
pub proof fn a_choice_is_stable_across_listings(
    a: Seq<(Seq<char>, Option<u64>)>,
    b: Seq<(Seq<char>, Option<u64>)>,
    quant: Option<Seq<char>>,
    x: ChoiceView,
    y: ChoiceView,
)
    requires
        same_files(a, b),
        chosen(listing(a), quant, x),
        chosen(listing(b), quant, y),
    ensures
        x == y,
{
    let wanted = wanted_tag(quant);
    flipped(a, b);
    if inhabited(listing(a), Tier::Any, wanted) {
        inhabited_alike(a, b, Tier::Any, wanted);
    }
    if inhabited(listing(b), Tier::Any, wanted) {
        inhabited_alike(b, a, Tier::Any, wanted);
    }
    if inhabited(listing(a), Tier::Tagged, wanted) {
        inhabited_alike(a, b, Tier::Tagged, wanted);
    }
    if inhabited(listing(b), Tier::Tagged, wanted) {
        inhabited_alike(b, a, Tier::Tagged, wanted);
    }
    if inhabited(listing(a), Tier::Q4, wanted) {
        inhabited_alike(a, b, Tier::Q4, wanted);
    }
    if inhabited(listing(b), Tier::Q4, wanted) {
        inhabited_alike(b, a, Tier::Q4, wanted);
    }
    match (x, y) {
        (ChoiceView::Exact(p), ChoiceView::Exact(q)) => {
            first_alike(a, b, Tier::Tagged, wanted, p, q);
        },
        (ChoiceView::Fallback(p), ChoiceView::Fallback(q)) => {
            if inhabited(listing(a), Tier::Q4, wanted) {
                first_alike(a, b, Tier::Q4, wanted, p, q);
            } else {
                first_alike(a, b, Tier::Any, wanted, p, q);
            }
        },
        (ChoiceView::QuantMissing(s), ChoiceView::QuantMissing(t)) => {
            tags_in_both(a, b, s, t);
            tags_in_both(b, a, t, s);
            let s1 = lower_all(s);
            let t1 = lower_all(t);
            assert forall|i: int, j: int|
                #![trigger s1[i], s1[j]]
                0 <= i < j < s1.len() implies text_le(s1[i], s1[j]) && s1[i] != s1[j] by {
                assert(s1[i] == lower(s[i]) && s1[j] == lower(s[j]));
            }
            assert forall|i: int, j: int|
                #![trigger t1[i], t1[j]]
                0 <= i < j < t1.len() implies text_le(t1[i], t1[j]) && t1[i] != t1[j] by {
                assert(t1[i] == lower(t[i]) && t1[j] == lower(t[j]));
            }
            one_order(s1, t1);
            assert(s.len() == s1.len() && t.len() == t1.len());
            assert forall|i: int| 0 <= i < s.len() implies s[i] == t[i] by {
                assert(s1[i] == lower(s[i]) && t1[i] == lower(t[i]));
                spelled_alike(a, b, s[i], t[i]);
            }
            assert(s =~= t);
        },
        _ => {},
    }
}

/// What is chosen is a model file of the listing: neither a projector nor a
/// shard past the first.
pub proof fn only_models_are_chosen(
    files: Seq<FileView>,
    quant: Option<Seq<char>>,
    choice: ChoiceView,
)
    requires
        chosen(files, quant, choice),
    ensures
        forall|name: Seq<char>|
            choice == ChoiceView::Exact(name) || choice == ChoiceView::Fallback(name) ==> (exists|
                i: int,
            |
                0 <= i < files.len() && (#[trigger] files[i]).name == name && files[i].candidate()
                    && !files[i].is_projector()),
{
    assert forall|name: Seq<char>|
        choice == ChoiceView::Exact(name) || choice == ChoiceView::Fallback(name) implies (exists|
        i: int,
    |
        0 <= i < files.len() && (#[trigger] files[i]).name == name && files[i].candidate()
            && !files[i].is_projector()) by {
        let wanted = wanted_tag(quant);
        let tier = if inhabited(files, Tier::Tagged, wanted) {
            Tier::Tagged
        } else if inhabited(files, Tier::Q4, wanted) {
            Tier::Q4
        } else {
            Tier::Any
        };
        assert(first_of(files, tier, wanted, name));
        let i = choose|i: int|
            0 <= i < files.len() && belongs(#[trigger] files[i], tier, wanted) && files[i].name
                == name;
        assert(files[i].candidate());
    }
}

/// Whether a file is no larger than another; a file of unknown size is no
/// smaller than any.
pub open spec fn no_larger(a: FileView, b: FileView) -> bool {
    match (a.size, b.size) {
        (Some(x), Some(y)) => x <= y,
        (Some(_), None) => true,
        (None, Some(y)) => y == u64::MAX,
        (None, None) => true,
    }
}

/// A file is chosen as asked where a model file carries the tag: it carries
/// it too, and none that does is smaller.
pub proof fn the_smallest_with_the_tag_is_chosen(
    files: Seq<FileView>,
    quant: Option<Seq<char>>,
    choice: ChoiceView,
)
    requires
        chosen(files, quant, choice),
    ensures
        ({
            let tag = match quant {
                Some(tag) => tag,
                None => "Q4_K_M"@,
            };
            &&& choice is Exact <==> exists|k: int|
                0 <= k < files.len() && (#[trigger] files[k]).candidate() && files[k].has_tag(tag)
            &&& choice matches ChoiceView::Exact(name) ==> exists|i: int|
                {
                    &&& 0 <= i < files.len()
                    &&& (#[trigger] files[i]).name == name
                    &&& files[i].candidate()
                    &&& files[i].has_tag(tag)
                    &&& forall|k: int|
                        0 <= k < files.len() && (#[trigger] files[k]).candidate()
                            && files[k].has_tag(tag) ==> no_larger(files[i], files[k])
                }
        }),
{
    let tag = wanted_tag(quant);
    if inhabited(files, Tier::Tagged, tag) {
        let k = choose|k: int|
            0 <= k < files.len() && belongs(#[trigger] files[k], Tier::Tagged, tag);
        assert(files[k].candidate() && files[k].has_tag(tag));
    }
    if exists|k: int|
        0 <= k < files.len() && (#[trigger] files[k]).candidate() && files[k].has_tag(tag) {
        let k = choose|k: int|
            0 <= k < files.len() && (#[trigger] files[k]).candidate() && files[k].has_tag(tag);
        assert(belongs(files[k], Tier::Tagged, tag));
        assert(belongs(files[k], Tier::Any, tag));
    }
    if let ChoiceView::Exact(name) = choice {
        let i = choose|i: int|
            {
                &&& 0 <= i < files.len()
                &&& belongs(#[trigger] files[i], Tier::Tagged, tag)
                &&& files[i].name == name
                &&& forall|k: int|
                    0 <= k < files.len() && belongs(files[k], Tier::Tagged, tag)
                        ==> files[i].no_later(#[trigger] files[k])
            };
        assert(files[i].name == name);
        assert forall|k: int|
            0 <= k < files.len() && (#[trigger] files[k]).candidate() && files[k].has_tag(
                tag,
            ) implies no_larger(files[i], files[k]) by {
            assert(belongs(files[k], Tier::Tagged, tag));
            assert(files[i].no_later(files[k]));
        }
    }
}

/// Without a tag to go by, a repo that lacks the usual one falls back to the
/// smallest of its `Q4` files, or of all its model files where it has none.
pub proof fn a_fallback_is_the_smallest_there_is(
    files: Seq<FileView>,
    quant: Option<Seq<char>>,
    choice: ChoiceView,
)
    requires
        chosen(files, quant, choice),
    ensures
        choice is NoGguf <==> forall|k: int|
            0 <= k < files.len() ==> !(#[trigger] files[k]).candidate(),
        choice is Fallback ==> quant is None,
        choice matches ChoiceView::Fallback(name) ==> exists|i: int|
            {
                &&& 0 <= i < files.len()
                &&& (#[trigger] files[i]).name == name
                &&& files[i].candidate()
                &&& files[i].is_q4() ==> forall|k: int|
                    0 <= k < files.len() && (#[trigger] files[k]).candidate() && files[k].is_q4()
                        ==> no_larger(files[i], files[k])
                &&& !files[i].is_q4() ==> forall|k: int|
                    0 <= k < files.len() && (#[trigger] files[k]).candidate() ==> !files[k].is_q4()
                        && no_larger(files[i], files[k])
            },
{
    let tag = wanted_tag(quant);
    if inhabited(files, Tier::Any, tag) {
        let k = choose|k: int| 0 <= k < files.len() && belongs(#[trigger] files[k], Tier::Any, tag);
        assert(files[k].candidate());
    } else {
        assert forall|k: int| 0 <= k < files.len() implies !(#[trigger] files[k]).candidate() by {
            assert(!belongs(files[k], Tier::Any, tag));
        }
    }
    if let ChoiceView::Fallback(name) = choice {
        let tier = if inhabited(files, Tier::Q4, tag) {
            Tier::Q4
        } else {
            Tier::Any
        };
        let i = choose|i: int|
            {
                &&& 0 <= i < files.len()
                &&& belongs(#[trigger] files[i], tier, tag)
                &&& files[i].name == name
                &&& forall|k: int|
                    0 <= k < files.len() && belongs(files[k], tier, tag) ==> files[i].no_later(
                        #[trigger] files[k],
                    )
            };
        assert(files[i].name == name);
        if files[i].is_q4() {
            assert(belongs(files[i], Tier::Q4, tag));
            assert forall|k: int|
                0 <= k < files.len() && (#[trigger] files[k]).candidate()
                    && files[k].is_q4() implies no_larger(files[i], files[k]) by {
                assert(belongs(files[k], Tier::Q4, tag));
                assert(files[i].no_later(files[k]));
            }
        } else {
            assert forall|k: int|
                0 <= k < files.len() && (#[trigger] files[k]).candidate() implies !files[k].is_q4()
                && no_larger(files[i], files[k]) by {
                if files[k].is_q4() {
                    assert(belongs(files[k], Tier::Q4, tag));
                }
                assert(belongs(files[k], Tier::Any, tag));
                assert(files[i].no_later(files[k]));
            }
        }
    }
}

/// A tag that no model file carries is answered with the tags there are: each
/// is carried by a model file, and every model file's tag is among them.
pub proof fn a_missing_tag_is_answered_with_those_there_are(
    files: Seq<FileView>,
    quant: Option<Seq<char>>,
    choice: ChoiceView,
)
    requires
        chosen(files, quant, choice),
    ensures
        choice matches ChoiceView::QuantMissing(tags) ==> {
            &&& quant matches Some(tag) && forall|k: int|
                0 <= k < files.len() && (#[trigger] files[k]).candidate() ==> !files[k].has_tag(
                    tag,
                )
            &&& forall|t: int|
                0 <= t < tags.len() ==> exists|k: int|
                    0 <= k < files.len() && files[k].candidate() && (#[trigger] files[k]).tag()
                        == Some(#[trigger] tags[t])
            &&& forall|k: int|
                0 <= k < files.len() && (#[trigger] files[k]).candidate() && files[k].tag() is Some
                    ==> exists|t: int|
                    0 <= t < tags.len() && lower(#[trigger] tags[t]) == lower(files[k].tag()->0)
        },
{
    if let ChoiceView::QuantMissing(tags) = choice {
        let tag = quant->0;
        assert forall|k: int|
            0 <= k < files.len() && (#[trigger] files[k]).candidate() implies !files[k].has_tag(
            tag,
        ) by {
            assert(!belongs(files[k], Tier::Tagged, tag));
        }
        assert forall|t: int| 0 <= t < tags.len() implies exists|k: int|
            0 <= k < files.len() && files[k].candidate() && (#[trigger] files[k]).tag() == Some(
                #[trigger] tags[t],
            ) by {
            assert(spelled(files, tags[t]));
            let k = choose|k: int| 0 <= k < files.len() && #[trigger] names_tag(files, k, tags[t]);
            assert(files[k].tag() == Some(tags[t]));
        }
        assert forall|k: int|
            0 <= k < files.len() && (#[trigger] files[k]).candidate()
                && files[k].tag() is Some implies exists|t: int|
            0 <= t < tags.len() && lower(#[trigger] tags[t]) == lower(files[k].tag()->0) by {
            assert(listed_among(tags, files[k].tag()->0));
        }
    }
}

/// A part reads as a quantization where it is a `q` or an `iq` with a digit
/// behind it, or one of the float types.
pub proof fn what_reads_as_a_quantization(part: Seq<char>)
    ensures
        reads_as_quant(part) <==> {
            ||| part.len() >= 2 && part[0] == 'q' && 48 <= part[1] as u32 <= 57
            ||| part.len() >= 3 && part[0] == 'i' && part[1] == 'q' && 48 <= part[2] as u32 <= 57
            ||| part == "f16"@
            ||| part == "f32"@
            ||| part == "bf16"@
            ||| part == "fp16"@
            ||| part == "fp32"@
        },
{
    reveal_strlit("iq");
    reveal_strlit("q");
    reveal_strlit("f16");
    reveal_strlit("f32");
    reveal_strlit("bf16");
    reveal_strlit("fp16");
    reveal_strlit("fp32");
    assert("q"@.is_prefix_of(part) <==> part.len() >= 1 && part[0] == 'q') by {
        if part.len() >= 1 {
            assert(part.subrange(0, 1)[0] == part[0]);
            if part[0] == 'q' {
                assert(part.subrange(0, 1) =~= "q"@);
            }
        }
    }
    assert("iq"@.is_prefix_of(part) <==> part.len() >= 2 && part[0] == 'i' && part[1] == 'q') by {
        if part.len() >= 2 {
            assert(part.subrange(0, 2)[0] == part[0]);
            assert(part.subrange(0, 2)[1] == part[1]);
            if part[0] == 'i' && part[1] == 'q' {
                assert(part.subrange(0, 2) =~= "iq"@);
            }
        }
    }
    assert("q"@.len() == 1 && "iq"@.len() == 2);
    if "iq"@.is_prefix_of(part) {
        let rest = part.skip(2);
        assert(after_prefix(part, "iq"@) == Some(rest));
        assert(rest.len() == part.len() - 2);
        assert(rest.len() > 0 ==> rest[0] == part[2]);
        assert(reads_as_quant(part) <==> rest.len() > 0 && is_digit(rest[0]));
    } else if "q"@.is_prefix_of(part) {
        let rest = part.skip(1);
        assert(after_prefix(part, "q"@) == Some(rest));
        assert(rest.len() == part.len() - 1);
        assert(rest.len() > 0 ==> rest[0] == part[1]);
        assert(reads_as_quant(part) <==> rest.len() > 0 && is_digit(rest[0]));
    }
}

/// The tag a name carries is its last part that reads as a quantization, with
/// a `UD` directly before it kept.
pub proof fn a_tag_is_the_last_quantization(parts: Seq<Seq<char>>)
    ensures
        match tag_in(parts) {
            Some(tag) => exists|i: int|
                {
                    &&& 0 <= i < parts.len()
                    &&& reads_as_quant(lower(#[trigger] parts[i]))
                    &&& forall|k: int|
                        i < k < parts.len() ==> !reads_as_quant(lower(#[trigger] parts[k]))
                    &&& if i > 0 && lower(parts[i - 1]) == "ud"@ {
                        tag == parts[i - 1] + "-"@ + parts[i]
                    } else {
                        tag == parts[i]
                    }
                },
            None => forall|k: int|
                0 <= k < parts.len() ==> !reads_as_quant(lower(#[trigger] parts[k])),
        },
{
    last_quant_is_last(parts);
    if let Some(i) = last_quant(parts) {
        assert(reads_as_quant(lower(parts[i])));
    }
}

proof fn last_quant_is_last(parts: Seq<Seq<char>>)
    ensures
        match last_quant(parts) {
            Some(i) => 0 <= i < parts.len() && reads_as_quant(lower(parts[i])) && forall|k: int|
                i < k < parts.len() ==> !reads_as_quant(lower(#[trigger] parts[k])),
            None => forall|k: int|
                0 <= k < parts.len() ==> !reads_as_quant(lower(#[trigger] parts[k])),
        },
    decreases parts.len(),
{
    if parts.len() > 0 && !reads_as_quant(lower(parts.last())) {
        let init = parts.drop_last();
        last_quant_is_last(init);
        let from = match last_quant(init) {
            Some(i) => i,
            None => -1,
        };
        assert forall|k: int| from < k < parts.len() implies !reads_as_quant(
            lower(#[trigger] parts[k]),
        ) by {
            if k < init.len() {
                assert(init[k] == parts[k]);
            }
        }
    }
}

/// A tag is matched by whole parts of the name that follow one another, in
/// whatever case.
pub proof fn a_tag_is_matched_part_by_part(file: FileView, tag: Seq<char>)
    ensures
        file.has_tag(tag) <==> dashed(tag).len() > 0 && exists|i: int|
            {
                &&& 0 <= i
                &&& i + dashed(tag).len() <= file.parts().len()
                &&& #[trigger] is_run(lower_all(dashed(tag)), lower_all(file.parts()), i)
                &&& forall|k: int|
                    0 <= k < dashed(tag).len() ==> lower(#[trigger] dashed(tag)[k]) == lower(
                        file.parts()[i + k],
                    )
            },
{
    let want = lower_all(dashed(tag));
    let parts = lower_all(file.parts());
    assert forall|i: int|
        0 <= i && i + want.len() <= parts.len() && #[trigger] is_run(want, parts, i) implies forall|
        k: int,
    |
        0 <= k < want.len() ==> lower(#[trigger] dashed(tag)[k]) == lower(file.parts()[i + k]) by {
        assert forall|k: int| 0 <= k < want.len() implies lower(#[trigger] dashed(tag)[k]) == lower(
            file.parts()[i + k],
        ) by {
            assert(parts.subrange(i, i + want.len())[k] == want[k]);
        }
    }
}

/// Files whose names end in `.gguf` are projectors where the name begins with
/// `mmproj`; the others are models, unless they are a shard past the first.
pub proof fn a_gguf_is_a_model_or_a_projector(file: FileView)
    ensures
        ({
            let base = lower(base_name(file.name));
            let gguf = before_suffix(base, ".gguf"@) is Some;
            let projects = after_prefix(base, "mmproj"@) is Some;
            &&& file.is_projector() <==> gguf && projects
            &&& file.shard is None ==> (file.candidate() <==> gguf && !projects)
            &&& file.shard matches Some(shard) ==> (file.candidate() <==> gguf && !projects
                && shard.number == Some("00001"@))
        }),
{
}

/// A projector in half precision is taken before any other, and of several
/// the first by name.
pub proof fn a_half_precision_projector_comes_first(
    files: Seq<FileView>,
    choice: Option<Seq<char>>,
)
    requires
        projector_chosen(files, choice),
    ensures
        choice is Some <==> exists|k: int|
            0 <= k < files.len() && (#[trigger] files[k]).is_projector(),
        choice matches Some(name) ==> exists|i: int|
            {
                &&& 0 <= i < files.len()
                &&& (#[trigger] files[i]).name == name
                &&& files[i].is_projector()
                &&& forall|k: int|
                    0 <= k < files.len() && (#[trigger] files[k]).is_projector() && lower_all(
                        files[k].parts(),
                    ).contains("f16"@) ==> lower_all(files[i].parts()).contains("f16"@) && text_le(
                        name,
                        files[k].name,
                    )
                &&& !lower_all(files[i].parts()).contains("f16"@) ==> forall|k: int|
                    0 <= k < files.len() && (#[trigger] files[k]).is_projector() ==> text_le(
                        name,
                        files[k].name,
                    )
            },
{
    let half = projector_in(files, true);
    if half || projector_in(files, false) {
        let k = choose|k: int| 0 <= k < files.len() && projects(#[trigger] files[k], half);
        assert(files[k].is_projector());
        let name = choice->0;
        assert(first_projector(files, half, name));
        let i = choose|i: int|
            {
                &&& 0 <= i < files.len()
                &&& projects(#[trigger] files[i], half)
                &&& files[i].name == name
                &&& forall|k: int|
                    0 <= k < files.len() && projects(files[k], half) ==> text_le(
                        files[i].name,
                        #[trigger] files[k].name,
                    )
            };
        assert(files[i].name == name);
        assert forall|k: int|
            0 <= k < files.len() && (#[trigger] files[k]).is_projector() && lower_all(
                files[k].parts(),
            ).contains("f16"@) implies lower_all(files[i].parts()).contains("f16"@) && text_le(
            name,
            files[k].name,
        ) by {
            assert(projects(files[k], true));
            assert(half);
            assert(text_le(files[i].name, files[k].name));
        }
        if !lower_all(files[i].parts()).contains("f16"@) {
            assert forall|k: int|
                0 <= k < files.len() && (#[trigger] files[k]).is_projector() implies text_le(
                name,
                files[k].name,
            ) by {
                assert(projects(files[k], false));
                assert(text_le(files[i].name, files[k].name));
            }
        }
    } else {
        assert forall|k: int| 0 <= k < files.len() implies !(#[trigger] files[k]).is_projector() by {
            assert(!projects(files[k], false));
        }
    }
}

/// A tag is a `Q4` of some kind where it begins with `q4`, in whatever case,
/// behind a `ud-` or not.
pub proof fn what_counts_as_q4(file: FileView)
    ensures
        file.is_q4() <==> (file.tag() matches Some(tag) && (after_prefix(lower(tag), "q4"@) is Some
            || after_prefix(lower(tag), "ud-q4"@) is Some)),
{
}

/// A name is read without the extension it ends in, and all of it where it
/// ends in none.
pub proof fn a_name_is_read_without_its_extension(stem: Seq<char>, base: Seq<char>)
    ensures
        without_extension(stem + ".gguf"@) == stem,
        without_extension(stem + ".GGUF"@) == stem,
        !".gguf"@.is_suffix_of(base) && !".GGUF"@.is_suffix_of(base) ==> without_extension(base)
            == base,
{
    reveal_strlit(".gguf");
    reveal_strlit(".GGUF");
    let small = stem + ".gguf"@;
    let capital = stem + ".GGUF"@;
    let n = stem.len() as int;
    assert(small.subrange(n, n + 5) =~= ".gguf"@);
    assert(small.take(n) =~= stem);
    assert(capital.subrange(n, n + 5) =~= ".GGUF"@);
    assert(capital.take(n) =~= stem);
    assert(capital.subrange(n, n + 5)[1] == 'G');
    assert(".gguf"@[1] == 'g');
}

/// The parts of a name hold neither `-` nor `.`, and each holds something.
pub proof fn parts_are_parted_by_dashes_and_dots(s: Seq<char>)
    ensures
        forall|i: int| 0 <= i < dashed(s).len() ==> (#[trigger] dashed(s)[i]).len() > 0,
        forall|i: int, k: int|
            0 <= i < dashed(s).len() && 0 <= k < dashed(s)[i].len() ==> #[trigger] dashed(s)[i][k]
                != '-' && dashed(s)[i][k] != '.',
{
    let separates = either('-', '.');
    let all = pieces(s, separates);
    crate::text::pieces_hold_all_but_the_separators(s, separates);
    crate::text::empty_pieces_are_left_out(all);
    crate::seqs::filter_keeps(all, |part: Seq<char>| part.len() > 0);
    assert forall|i: int| 0 <= i < dashed(s).len() implies (#[trigger] dashed(s)[i]).len() > 0
        && all.contains(dashed(s)[i]) by {
        assert(dashed(s).contains(dashed(s)[i]));
    }
    assert forall|i: int, k: int|
        0 <= i < dashed(s).len() && 0 <= k < dashed(s)[i].len() implies #[trigger] dashed(s)[i][k]
        != '-' && dashed(s)[i][k] != '.' by {
        assert(all.contains(dashed(s)[i]));
        let j = choose|j: int| 0 <= j < all.len() && all[j] == dashed(s)[i];
        assert(!separates(all[j][k]));
    }
}

} // verus!
