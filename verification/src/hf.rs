//! Models from the Hugging Face Hub, by reference.
//!
//! Anywhere the API takes a model path it also takes a reference:
//!
//! ```text
//! hf:owner/repo                     the repo's Q4_K_M GGUF (see below)
//! hf:owner/repo:Q8_0                the file tagged with that quantization
//! hf:owner/repo:Model-Q5_K_M.gguf   that exact file
//! ```
//!
//! `hf://`, `hf.co/` and `https://huggingface.co/owner/repo` are accepted as
//! a courtesy.
//!
//! This module holds the grammar and what can go wrong; which file of a repo
//! is meant is decided in [`crate::hf_files`].
use vstd::prelude::*;
use vstd::string::*;
use crate::error::Error;
use crate::message::copy_text;
use crate::seqs::{group_views, view_of, views};
use crate::stream::{debug_of, debug_text};
use crate::text::{
    after_prefix, all_name_chars, chars_of, cut, decimal, either, is_name_char, is_space, lower,
    lower_chars, pieces, place_of, push_decimal, same_chars, space, split_on, split_once,
    starts_with, string_of, strip_prefix, strip_suffix, trim_slashes, without_slashes,
};

verus! {

broadcast use group_views;

/// The quantization chosen when a reference names none.
pub const DEFAULT_QUANT: &'static str = "Q4_K_M";

/// The environment variable that overrides the cache directory.
pub const MODELS_DIR_VAR: &'static str = "GEN2_MODELS_DIR";

// ── What can go wrong ───────────────────────────────────────────────────────

/// What can go wrong between a reference and a file on disk.
///
/// Each case says what to do about it. Converts into [`Error::Load`].
#[derive(Debug, Clone, PartialEq, Eq)]
pub enum HfError {
    /// The string is not `hf:owner/repo[:QUANT|:file.gguf]`.
    InvalidReference {
        /// As given.
        reference: String,
        /// What is wrong with it.
        reason: String,
    },
    /// The Hub has no such repo.
    RepoNotFound {
        /// `owner/name`.
        repo: String,
    },
    /// The repo has no file tagged with the requested quantization.
    QuantNotFound {
        /// `owner/name`.
        repo: String,
        /// As requested.
        quant: String,
        /// The tags the repo does have, sorted.
        available: Vec<String>,
    },
    /// The repo has no file by that name.
    FileNotFound {
        /// `owner/name`.
        repo: String,
        /// As requested.
        file: String,
    },
    /// The repo holds no GGUF file at all.
    NoGguf {
        /// `owner/name`.
        repo: String,
    },
    /// The Hub wants a token, or refused the one it got.
    Gated {
        /// `owner/name`.
        repo: String,
        /// Whether a token was sent.
        had_token: bool,
    },
    /// The Hub is rate-limiting this address.
    RateLimited {
        /// How many seconds to wait, when the Hub said.
        retry_after: Option<u64>,
    },
    /// The Hub could not be reached, and the cache could not answer.
    Network {
        /// `owner/name`.
        repo: String,
        /// The transport's own words.
        message: String,
        /// Where the cache was looked in.
        cache_dir: String,
    },
    /// The cache directory could not be read or written.
    Cache {
        /// The path involved.
        path: String,
        /// The I/O error.
        message: String,
    },
    /// Downloading is switched off and the reference is not in the cache.
    FeatureDisabled {
        /// The reference.
        reference: String,
    },
    /// Anything the Hub client reported that fits none of the above.
    Other {
        /// `owner/name`.
        repo: String,
        /// The client's own words.
        message: String,
    },
}

/// Some texts with `, ` between them.
pub open spec fn listed(items: Seq<Seq<char>>) -> Seq<char>
    decreases items.len(),
{
    if items.len() == 0 {
        Seq::empty()
    } else if items.len() == 1 {
        items[0]
    } else {
        listed(items.drop_last()) + ", "@ + items.last()
    }
}

fn push_listed(out: &mut String, items: &Vec<String>)
    ensures
        final(out)@ == old(out)@ + listed(views(items@)),
{
    let ghost before = out@;
    let ghost all = views(items@);
    let mut i: usize = 0;
    assert(all.take(0) =~= Seq::empty());
    assert(out@ =~= before + Seq::<char>::empty());
    while i < items.len()
        invariant
            i <= items.len(),
            all == views(items@),
            out@ == before + listed(all.take(i as int)),
        decreases items.len() - i,
    {
        assert(all.take(i + 1).drop_last() =~= all.take(i as int));
        if i > 0 {
            out.append(", ");
        }
        out.append(items[i].as_str());
        assert(out@ =~= before + listed(all.take(i + 1)));
        i += 1;
    }
    assert(all.take(items.len() as int) =~= all);
}

/// What is said of a malformed reference.
pub open spec fn invalid_words(reference: Seq<char>, reason: Seq<char>) -> Seq<char> {
    "`"@ + reference + "` is not a Hugging Face reference: "@ + reason
        + ". The form is hf:owner/repo, hf:owner/repo:QUANT (e.g. Q8_0) or hf:owner/repo:file.gguf"@
}

impl HfError {
    /// The failure in words, with what to do about it.
    pub open spec fn words(self) -> Seq<char> {
        match self {
            HfError::InvalidReference { reference, reason } => invalid_words(reference@, reason@),
            HfError::RepoNotFound { repo } => "no repo `"@ + repo@
                + "` on the Hugging Face Hub — check the spelling at https://huggingface.co/"@
                + repo@ + " (a private repo needs HF_TOKEN)"@,
            HfError::QuantNotFound { repo, quant, available } => "`"@ + repo@
                + "` has no GGUF tagged `"@ + quant@ + "`"@ + if available@.len() == 0 {
                "; it has no tagged GGUF files at all"@
            } else {
                "; it has: "@ + listed(views(available@))
            },
            HfError::FileNotFound { repo, file } => "`"@ + repo@ + "` has no file `"@ + file@
                + "` — see https://huggingface.co/"@ + repo@ + "/tree/main"@,
            HfError::NoGguf { repo } => "`"@ + repo@
                + "` holds no GGUF file; `hf:` loads GGUF repos (try the model's `-GGUF` repo, e.g. from unsloth, bartowski or ggml-org)"@,
            HfError::Gated { repo, had_token } => "`"@ + repo@ + "` needs a token"@ + if had_token {
                ": the Hub refused the one sent. Accept the model's terms at https://huggingface.co/"@
                    + repo@ + ", and check the token has read access"@
            } else {
                " (gated or private): set HF_TOKEN to a token from https://huggingface.co/settings/tokens, after accepting the model's terms at https://huggingface.co/"@
                    + repo@
            },
            HfError::RateLimited { retry_after } => "the Hugging Face Hub is rate-limiting this address"@
                + (match retry_after {
                Some(seconds) => "; retry in "@ + decimal(seconds as nat) + "s"@,
                None => Seq::empty(),
            }) + ". Setting HF_TOKEN lifts the anonymous limit"@,
            HfError::Network { repo, message, cache_dir } => "could not reach the Hugging Face Hub for `"@
                + repo@ + "` ("@ + message@ + "), and nothing usable for it is cached under "@
                + cache_dir@ + " — connect, or point "@ + MODELS_DIR_VAR@
                + " at a cache that holds it"@,
            HfError::Cache { path, message } => "model cache at "@ + path@ + ": "@ + message@,
            HfError::FeatureDisabled { reference } => "`"@ + reference@
                + "` is a Hugging Face reference, but this build of gen2 has the `hf` feature off and the file is not cached; enable the feature, or download the GGUF and load it by path"@,
            HfError::Other { repo, message } => "Hugging Face Hub, `"@ + repo@ + "`: "@ + message@,
        }
    }

    /// The failure in words, with what to do about it.
    pub fn to_string(&self) -> (out: String)
        ensures
            out@ == self.words(),
    {
        let mut out = String::new();
        match self {
            HfError::InvalidReference { reference, reason } => {
                out.append("`");
                out.append(reference.as_str());
                out.append("` is not a Hugging Face reference: ");
                out.append(reason.as_str());
                out.append(
                    ". The form is hf:owner/repo, hf:owner/repo:QUANT (e.g. Q8_0) or hf:owner/repo:file.gguf",
                );
            },
            HfError::RepoNotFound { repo } => {
                out.append("no repo `");
                out.append(repo.as_str());
                out.append(
                    "` on the Hugging Face Hub — check the spelling at https://huggingface.co/",
                );
                out.append(repo.as_str());
                out.append(" (a private repo needs HF_TOKEN)");
            },
            HfError::QuantNotFound { repo, quant, available } => {
                out.append("`");
                out.append(repo.as_str());
                out.append("` has no GGUF tagged `");
                out.append(quant.as_str());
                out.append("`");
                if available.len() == 0 {
                    out.append("; it has no tagged GGUF files at all");
                } else {
                    out.append("; it has: ");
                    push_listed(&mut out, available);
                }
            },
            HfError::FileNotFound { repo, file } => {
                out.append("`");
                out.append(repo.as_str());
                out.append("` has no file `");
                out.append(file.as_str());
                out.append("` — see https://huggingface.co/");
                out.append(repo.as_str());
                out.append("/tree/main");
            },
            HfError::NoGguf { repo } => {
                out.append("`");
                out.append(repo.as_str());
                out.append(
                    "` holds no GGUF file; `hf:` loads GGUF repos (try the model's `-GGUF` repo, e.g. from unsloth, bartowski or ggml-org)",
                );
            },
            HfError::Gated { repo, had_token } => {
                out.append("`");
                out.append(repo.as_str());
                out.append("` needs a token");
                if *had_token {
                    out.append(
                        ": the Hub refused the one sent. Accept the model's terms at https://huggingface.co/",
                    );
                    out.append(repo.as_str());
                    out.append(", and check the token has read access");
                } else {
                    out.append(
                        " (gated or private): set HF_TOKEN to a token from https://huggingface.co/settings/tokens, after accepting the model's terms at https://huggingface.co/",
                    );
                    out.append(repo.as_str());
                }
            },
            HfError::RateLimited { retry_after } => {
                out.append("the Hugging Face Hub is rate-limiting this address");
                match retry_after {
                    Some(seconds) => {
                        out.append("; retry in ");
                        push_decimal(&mut out, *seconds);
                        out.append("s");
                    },
                    None => {},
                }
                out.append(". Setting HF_TOKEN lifts the anonymous limit");
            },
            HfError::Network { repo, message, cache_dir } => {
                out.append("could not reach the Hugging Face Hub for `");
                out.append(repo.as_str());
                out.append("` (");
                out.append(message.as_str());
                out.append("), and nothing usable for it is cached under ");
                out.append(cache_dir.as_str());
                out.append(" — connect, or point ");
                out.append(MODELS_DIR_VAR);
                out.append(" at a cache that holds it");
            },
            HfError::Cache { path, message } => {
                out.append("model cache at ");
                out.append(path.as_str());
                out.append(": ");
                out.append(message.as_str());
            },
            HfError::FeatureDisabled { reference } => {
                out.append("`");
                out.append(reference.as_str());
                out.append(
                    "` is a Hugging Face reference, but this build of gen2 has the `hf` feature off and the file is not cached; enable the feature, or download the GGUF and load it by path",
                );
            },
            HfError::Other { repo, message } => {
                out.append("Hugging Face Hub, `");
                out.append(repo.as_str());
                out.append("`: ");
                out.append(message.as_str());
            },
        }
        assert(out@ =~= self.words());
        out
    }

    /// The failure as the load error it is to a caller.
    pub fn into_error(self) -> (out: Error)
        ensures
            out matches Error::Load(text) && text@ == self.words(),
    {
        Error::Load(self.to_string())
    }
}

// ── The grammar ─────────────────────────────────────────────────────────────

/// A reference, mathematically: a repo, and which file of it.
pub struct RefView {
    pub repo: Seq<char>,
    pub quant: Option<Seq<char>>,
    pub file: Option<Seq<char>>,
}

/// Whether a path string is a reference rather than a file.
pub open spec fn refers(s: Seq<char>) -> bool {
    ||| "hf:"@.is_prefix_of(s)
    ||| "hf.co/"@.is_prefix_of(s)
    ||| "https://huggingface.co/"@.is_prefix_of(s)
    ||| "https://hf.co/"@.is_prefix_of(s)
    ||| "http://huggingface.co/"@.is_prefix_of(s)
}

/// Whether white space stands at either end.
pub open spec fn padded(s: Seq<char>) -> bool {
    s.len() > 0 && (is_space(s[0]) || is_space(s.last()))
}

/// Whether every character may stand in a name.
pub open spec fn plain_name(s: Seq<char>) -> bool {
    forall|i: int| 0 <= i < s.len() ==> is_name_char(#[trigger] s[i])
}

/// What is wrong with a repo's name.
pub open spec fn repo_fault(repo: Seq<char>) -> Option<Seq<char>> {
    match cut(repo, '/') {
        None => Some("the repo must be `owner/name`"@),
        Some((owner, name)) => if owner.len() == 0 || name.len() == 0 {
            Some("the repo must be `owner/name`"@)
        } else if name.contains('/') {
            Some("the repo must be `owner/name` — a file in it goes after a colon"@)
        } else if !plain_name(owner) || !plain_name(name) {
            Some("repo names use letters, digits, `-`, `_` and `.` only"@)
        } else {
            None
        },
    }
}

/// What is wrong with a quantization tag.
pub open spec fn quant_fault(quant: Seq<char>) -> Option<Seq<char>> {
    if plain_name(quant) {
        None
    } else {
        Some("a quantization tag uses letters, digits, `-`, `_` and `.` only"@)
    }
}

/// The parts of a path.
pub open spec fn path_parts(file: Seq<char>) -> Seq<Seq<char>> {
    pieces(file, either('/', '/'))
}

/// What is wrong with a file's path.
pub open spec fn file_fault(file: Seq<char>) -> Option<Seq<char>> {
    if exists|i: int|
        0 <= i < path_parts(file).len() && ((#[trigger] path_parts(file)[i]).len() == 0
            || path_parts(file)[i] == ".."@) {
        Some("a file is a path within the repo, without `..` or a leading `/`"@)
    } else if exists|i: int| 0 <= i < file.len() && is_space(#[trigger] file[i]) {
        Some("a file name cannot contain whitespace"@)
    } else {
        None
    }
}

/// Whether a name ends in `.gguf`, in whatever case.
pub open spec fn names_gguf(s: Seq<char>) -> bool {
    ".gguf"@.is_suffix_of(lower(s))
}

/// A text up to its first `?` or `#`.
pub open spec fn before_query(s: Seq<char>) -> Seq<char>
    decreases s.len(),
{
    if s.len() == 0 {
        s
    } else if s[0] == '?' || s[0] == '#' {
        Seq::empty()
    } else {
        seq![s[0]] + before_query(s.drop_first())
    }
}

/// The file a URL's tail names: none for the repo's page or a tree.
pub open spec fn url_file(tail: Seq<char>) -> Result<Option<Seq<char>>, Seq<char>> {
    let refused = Err::<Option<Seq<char>>, Seq<char>>(
        "a URL is accepted only as the repo page or a `resolve`/`blob` file link"@,
    );
    if tail.len() == 0 {
        Ok(None)
    } else {
        match cut(tail, '/') {
            None => if tail == "tree"@ {
                Ok(None)
            } else {
                refused
            },
            Some((kind, rest)) => if kind == "tree"@ {
                Ok(None)
            } else if kind == "resolve"@ || kind == "blob"@ {
                match cut(rest, '/') {
                    None => refused,
                    Some((_, file)) => if !names_gguf(file) {
                        Err("the URL names a file that is not a .gguf"@)
                    } else {
                        match file_fault(file) {
                            Some(fault) => Err(fault),
                            None => Ok(Some(file)),
                        }
                    },
                }
            } else {
                refused
            },
        }
    }
}

/// The owner, the name and the tail of a URL's path.
pub open spec fn url_parts(path: Seq<char>) -> (Seq<char>, Seq<char>, Seq<char>) {
    match cut(path, '/') {
        None => (path, Seq::empty(), Seq::empty()),
        Some((owner, rest)) => match cut(rest, '/') {
            None => (owner, rest, Seq::empty()),
            Some((name, tail)) => (owner, name, tail),
        },
    }
}

/// What a URL's path refers to.
pub open spec fn parsed_url(rest: Seq<char>) -> Result<RefView, Seq<char>> {
    let (owner, name, tail) = url_parts(trim_slashes(before_query(rest)));
    let repo = owner + "/"@ + name;
    match repo_fault(repo) {
        Some(fault) => Err(fault),
        None => match url_file(tail) {
            Err(fault) => Err(fault),
            Ok(file) => Ok(RefView { repo, quant: None, file }),
        },
    }
}

/// What follows `https://huggingface.co/` or one of its like.
pub open spec fn after_host(s: Seq<char>) -> Option<Seq<char>> {
    match after_prefix(s, "https://huggingface.co/"@) {
        Some(rest) => Some(rest),
        None => match after_prefix(s, "http://huggingface.co/"@) {
            Some(rest) => Some(rest),
            None => after_prefix(s, "https://hf.co/"@),
        },
    }
}

/// What follows `hf:` or one of its like.
pub open spec fn after_scheme(s: Seq<char>) -> Option<Seq<char>> {
    match after_prefix(s, "hf://"@) {
        Some(rest) => Some(rest),
        None => match after_prefix(s, "hf:"@) {
            Some(rest) => Some(rest),
            None => after_prefix(s, "hf.co/"@),
        },
    }
}

/// What the part behind the colon says: a `.gguf` name is a file, anything
/// else a tag.
pub open spec fn parsed_suffix(repo: Seq<char>, suffix: Seq<char>) -> Result<RefView, Seq<char>> {
    if suffix.len() == 0 {
        Err("nothing after the colon; drop it, or name a quantization or a .gguf file"@)
    } else if names_gguf(suffix) {
        match file_fault(suffix) {
            Some(fault) => Err(fault),
            None => Ok(RefView { repo, quant: None, file: Some(suffix) }),
        }
    } else {
        match quant_fault(suffix) {
            Some(fault) => Err(fault),
            None => Ok(RefView { repo, quant: Some(suffix), file: None }),
        }
    }
}

/// What a reference refers to, or what is wrong with it.
pub open spec fn parsed(s: Seq<char>) -> Result<RefView, Seq<char>> {
    if padded(s) {
        Err("leading or trailing whitespace"@)
    } else {
        match after_host(s) {
            Some(rest) => parsed_url(rest),
            None => match after_scheme(s) {
                None => Err("it does not start with `hf:`"@),
                Some(body) => if body.len() == 0 {
                    Err("nothing after `hf:`"@)
                } else {
                    match cut(body, ':') {
                        None => match repo_fault(body) {
                            Some(fault) => Err(fault),
                            None => Ok(RefView { repo: body, quant: None, file: None }),
                        },
                        Some((repo, suffix)) => match repo_fault(repo) {
                            Some(fault) => Err(fault),
                            None => parsed_suffix(repo, suffix),
                        },
                    }
                },
            },
        }
    }
}

/// Whether a path string is a reference rather than a file.
///
/// The only trigger for the resolver: a plain path never gets past this
/// prefix check.
pub fn is_reference(s: &str) -> (out: bool)
    ensures
        out == refers(s@),
{
    starts_with(s, "hf:") || starts_with(s, "hf.co/") || starts_with(s, "https://huggingface.co/")
        || starts_with(s, "https://hf.co/") || starts_with(s, "http://huggingface.co/")
}

/// What a reference says.
#[derive(Debug, PartialEq, Eq)]
pub struct Parsed {
    pub repo: String,
    pub quant: Option<String>,
    pub file: Option<String>,
}

impl View for Parsed {
    type V = RefView;

    open spec fn view(&self) -> RefView {
        RefView { repo: self.repo@, quant: view_of(self.quant), file: view_of(self.file) }
    }
}

fn invalid(reference: &str, reason: &str) -> (out: HfError)
    ensures
        out matches HfError::InvalidReference { reference: r, reason: w } && r@ == reference@
            && w@ == reason@,
{
    HfError::InvalidReference { reference: reference.to_owned(), reason: reason.to_owned() }
}

/// Whether an outcome is what `want` says, a fault told of `reference`.
pub open spec fn tells(
    reference: Seq<char>,
    want: Result<RefView, Seq<char>>,
    out: Result<Parsed, HfError>,
) -> bool {
    match want {
        Ok(r) => out matches Ok(p) && p@ == r,
        Err(fault) => out matches Err(HfError::InvalidReference { reference: r, reason }) && r@
            == reference && reason@ == fault,
    }
}

fn check_repo(repo: &[char]) -> (out: Option<&'static str>)
    ensures
        match out {
            Some(fault) => repo_fault(repo@) == Some(fault@),
            None => repo_fault(repo@) is None,
        },
{
    match split_once(repo, '/') {
        None => Some("the repo must be `owner/name`"),
        Some((owner, name)) => {
            if owner.len() == 0 || name.len() == 0 {
                return Some("the repo must be `owner/name`");
            }
            proof {
                crate::seqs::first_at_is_first(name@, '/');
            }
            if place_of(name.as_slice(), '/').is_some() {
                return Some("the repo must be `owner/name` — a file in it goes after a colon");
            }
            if !all_name_chars(owner.as_slice()) || !all_name_chars(name.as_slice()) {
                return Some("repo names use letters, digits, `-`, `_` and `.` only");
            }
            None
        },
    }
}

fn check_file(file: &[char]) -> (out: Option<&'static str>)
    ensures
        match out {
            Some(fault) => file_fault(file@) == Some(fault@),
            None => file_fault(file@) is None,
        },
{
    let parts = split_on(file, '/', '/');
    let mut i: usize = 0;
    while i < parts.len()
        invariant
            i <= parts.len(),
            views(parts@) == path_parts(file@),
            forall|k: int|
                0 <= k < i ==> (#[trigger] path_parts(file@)[k]).len() != 0 && path_parts(file@)[k]
                    != ".."@,
        decreases parts.len() - i,
    {
        assert(path_parts(file@)[i as int] == parts@[i as int]@);
        if parts[i].len() == 0 || same_chars(parts[i].as_slice(), chars_of("..").as_slice()) {
            return Some("a file is a path within the repo, without `..` or a leading `/`");
        }
        i += 1;
    }
    let mut j: usize = 0;
    while j < file.len()
        invariant
            j <= file.len(),
            forall|k: int| 0 <= k < j ==> !is_space(#[trigger] file@[k]),
            forall|k: int|
                0 <= k < path_parts(file@).len() ==> (#[trigger] path_parts(file@)[k]).len() != 0
                    && path_parts(file@)[k] != ".."@,
        decreases file.len() - j,
    {
        if space(file[j]) {
            return Some("a file name cannot contain whitespace");
        }
        j += 1;
    }
    None
}

fn ends_gguf(s: &[char]) -> (out: bool)
    ensures
        out == names_gguf(s@),
{
    strip_suffix(lower_chars(s).as_slice(), ".gguf").is_some()
}

fn cut_query(s: &[char]) -> (out: Vec<char>)
    ensures
        out@ == before_query(s@),
{
    let mut out: Vec<char> = Vec::new();
    let mut i: usize = 0;
    assert(s@.skip(0) =~= s@);
    assert(Seq::<char>::empty() + before_query(s@) =~= before_query(s@));
    while i < s.len()
        invariant
            i <= s.len(),
            before_query(s@) == out@ + before_query(s@.skip(i as int)),
        decreases s.len() - i,
    {
        let c = s[i];
        assert(s@.skip(i as int)[0] == c);
        assert(s@.skip(i as int).drop_first() =~= s@.skip(i + 1));
        if c == '?' || c == '#' {
            assert(out@ + Seq::<char>::empty() =~= out@);
            return out;
        }
        let ghost rest = before_query(s@.skip(i + 1));
        assert(out@ + (seq![c] + rest) =~= out@.push(c) + rest);
        out.push(c);
        i += 1;
    }
    assert(s@.skip(s@.len() as int) =~= Seq::empty());
    assert(out@ + Seq::<char>::empty() =~= out@);
    out
}

/// `owner/repo[/resolve|blob/<rev>/<file>][?query]`, as copied from a
/// browser.
fn parse_url_path(reference: &str, rest: &[char]) -> (out: Result<Parsed, HfError>)
    ensures
        tells(reference@, parsed_url(rest@), out),
{
    let path = without_slashes(cut_query(rest));
    let (owner, name, tail) = match split_once(path.as_slice(), '/') {
        None => {
            let (name, tail): (Vec<char>, Vec<char>) = (Vec::new(), Vec::new());
            (path, name, tail)
        },
        Some((owner, rest)) => match split_once(rest.as_slice(), '/') {
            None => {
                let tail: Vec<char> = Vec::new();
                (owner, rest, tail)
            },
            Some((name, tail)) => (owner, name, tail),
        },
    };
    let mut repo = owner;
    let mut slash = chars_of("/");
    repo.append(&mut slash);
    let mut name = name;
    repo.append(&mut name);
    if let Some(fault) = check_repo(repo.as_slice()) {
        return Err(invalid(reference, fault));
    }
    let file = match find_url_file(tail.as_slice()) {
        Err(fault) => {
            return Err(invalid(reference, fault));
        },
        Ok(file) => file,
    };
    Ok(Parsed { repo: string_of(repo.as_slice()), quant: None, file })
}

fn find_url_file(tail: &[char]) -> (out: Result<Option<String>, &'static str>)
    ensures
        match url_file(tail@) {
            Ok(file) => out matches Ok(f) && view_of(f) == file,
            Err(fault) => out matches Err(f) && f@ == fault,
        },
{
    if tail.len() == 0 {
        return Ok(None);
    }
    match split_once(tail, '/') {
        None => {
            if same_chars(tail, chars_of("tree").as_slice()) {
                Ok(None)
            } else {
                Err("a URL is accepted only as the repo page or a `resolve`/`blob` file link")
            }
        },
        Some((kind, rest)) => {
            if same_chars(kind.as_slice(), chars_of("tree").as_slice()) {
                return Ok(None);
            }
            if !same_chars(kind.as_slice(), chars_of("resolve").as_slice()) && !same_chars(
                kind.as_slice(),
                chars_of("blob").as_slice(),
            ) {
                return Err(
                    "a URL is accepted only as the repo page or a `resolve`/`blob` file link",
                );
            }
            match split_once(rest.as_slice(), '/') {
                None => Err(
                    "a URL is accepted only as the repo page or a `resolve`/`blob` file link",
                ),
                Some((_, file)) => {
                    if !ends_gguf(file.as_slice()) {
                        return Err("the URL names a file that is not a .gguf");
                    }
                    match check_file(file.as_slice()) {
                        Some(fault) => Err(fault),
                        None => Ok(Some(string_of(file.as_slice()))),
                    }
                },
            }
        },
    }
}

fn strip_host(s: &[char]) -> (out: Option<Vec<char>>)
    ensures
        match out {
            Some(rest) => after_host(s@) == Some(rest@),
            None => after_host(s@) is None,
        },
{
    match strip_prefix(s, "https://huggingface.co/") {
        Some(rest) => Some(rest),
        None => match strip_prefix(s, "http://huggingface.co/") {
            Some(rest) => Some(rest),
            None => strip_prefix(s, "https://hf.co/"),
        },
    }
}

fn strip_scheme(s: &[char]) -> (out: Option<Vec<char>>)
    ensures
        match out {
            Some(rest) => after_scheme(s@) == Some(rest@),
            None => after_scheme(s@) is None,
        },
{
    match strip_prefix(s, "hf://") {
        Some(rest) => Some(rest),
        None => match strip_prefix(s, "hf:") {
            Some(rest) => Some(rest),
            None => strip_prefix(s, "hf.co/"),
        },
    }
}

/// Parse the `hf:` grammar and its courtesy forms.
pub fn parse_reference(reference: &str) -> (out: Result<Parsed, HfError>)
    ensures
        tells(reference@, parsed(reference@), out),
{
    let chars = chars_of(reference);
    if chars.len() > 0 && (space(chars[0]) || space(chars[chars.len() - 1])) {
        return Err(invalid(reference, "leading or trailing whitespace"));
    }
    if let Some(rest) = strip_host(chars.as_slice()) {
        return parse_url_path(reference, rest.as_slice());
    }
    let body = match strip_scheme(chars.as_slice()) {
        Some(body) => body,
        None => {
            return Err(invalid(reference, "it does not start with `hf:`"));
        },
    };
    if body.len() == 0 {
        return Err(invalid(reference, "nothing after `hf:`"));
    }
    match split_once(body.as_slice(), ':') {
        None => match check_repo(body.as_slice()) {
            Some(fault) => Err(invalid(reference, fault)),
            None => Ok(Parsed { repo: string_of(body.as_slice()), quant: None, file: None }),
        },
        Some((repo, suffix)) => {
            if let Some(fault) = check_repo(repo.as_slice()) {
                return Err(invalid(reference, fault));
            }
            if suffix.len() == 0 {
                return Err(
                    invalid(
                        reference,
                        "nothing after the colon; drop it, or name a quantization or a .gguf file",
                    ),
                );
            }
            if ends_gguf(suffix.as_slice()) {
                if let Some(fault) = check_file(suffix.as_slice()) {
                    return Err(invalid(reference, fault));
                }
                Ok(
                    Parsed {
                        repo: string_of(repo.as_slice()),
                        quant: None,
                        file: Some(string_of(suffix.as_slice())),
                    },
                )
            } else {
                if !all_name_chars(suffix.as_slice()) {
                    return Err(
                        invalid(
                            reference,
                            "a quantization tag uses letters, digits, `-`, `_` and `.` only",
                        ),
                    );
                }
                Ok(
                    Parsed {
                        repo: string_of(repo.as_slice()),
                        quant: Some(string_of(suffix.as_slice())),
                        file: None,
                    },
                )
            }
        },
    }
}

// ── The typed form ──────────────────────────────────────────────────────────

/// Which projector goes with the weights.
#[derive(Debug, PartialEq, Eq)]
pub enum Mmproj {
    /// The repo's projector when it has one.
    Auto,
    /// Never a projector.
    Nothing,
    /// This file.
    File(String),
}

impl Clone for Mmproj {
    fn clone(&self) -> (out: Self)
        ensures
            out == *self,
    {
        match self {
            Mmproj::Auto => Mmproj::Auto,
            Mmproj::Nothing => Mmproj::Nothing,
            Mmproj::File(file) => Mmproj::File(file.clone()),
        }
    }
}

/// A model on the Hugging Face Hub: a repo, and optionally which file in it.
///
/// It may hold a token, so it is shown by [`HfModel::described`], which does
/// not.
#[derive(PartialEq, Eq)]
pub struct HfModel {
    /// `owner/name`.
    pub repo: String,
    /// A quantization tag to pick the file by. `None` means
    /// [`DEFAULT_QUANT`] with fallbacks. Ignored when `file` is set.
    pub quant: Option<String>,
    /// An exact file in the repo. Set, nothing is listed or chosen.
    pub file: Option<String>,
    /// Which projector goes with it.
    pub projector: Mmproj,
    /// Where files go; `None` means the default cache directory.
    pub cache: Option<String>,
    /// A token for this download; `None` means the environment's.
    pub own_token: Option<String>,
}

impl Clone for HfModel {
    fn clone(&self) -> (out: Self)
        ensures
            out == *self,
    {
        HfModel {
            repo: self.repo.clone(),
            quant: copy_text(&self.quant),
            file: copy_text(&self.file),
            projector: self.projector.clone(),
            cache: copy_text(&self.cache),
            own_token: copy_text(&self.own_token),
        }
    }
}

/// An optional text as Rust's `Debug` shows it.
pub open spec fn shown(text: Option<Seq<char>>) -> Seq<char> {
    match text {
        Some(t) => "Some("@ + debug_of(t) + ")"@,
        None => "None"@,
    }
}

fn push_shown(out: &mut String, text: &Option<String>)
    ensures
        final(out)@ == old(out)@ + shown(view_of(*text)),
{
    let ghost head = out@;
    match text {
        Some(t) => {
            out.append("Some(");
            out.append(debug_text(t.as_str()).as_str());
            out.append(")");
            assert(out@ =~= head + shown(Some(t@)));
        },
        None => {
            out.append("None");
        },
    }
}

/// A reference in its `hf:` form.
pub open spec fn written(r: RefView) -> Seq<char> {
    match (r.file, r.quant) {
        (Some(file), _) => "hf:"@ + r.repo + ":"@ + file,
        (None, Some(quant)) => "hf:"@ + r.repo + ":"@ + quant,
        (None, None) => "hf:"@ + r.repo,
    }
}

impl HfModel {
    /// What the model refers to.
    pub open spec fn refers_to(self) -> RefView {
        RefView { repo: self.repo@, quant: view_of(self.quant), file: view_of(self.file) }
    }

    /// A model by repo id, resolving to the default quantization.
    pub fn new(repo: &str) -> (out: Self)
        ensures
            out.refers_to() == (RefView { repo: repo@, quant: None, file: None }),
            out.projector == Mmproj::Auto,
            out.cache is None,
            out.own_token is None,
    {
        HfModel {
            repo: repo.to_owned(),
            quant: None,
            file: None,
            projector: Mmproj::Auto,
            cache: None,
            own_token: None,
        }
    }

    /// Parse the `hf:` grammar and its courtesy forms.
    ///
    /// Everything about the string is checked here, so a malformed reference
    /// fails before any network is touched.
    pub fn parse(reference: &str) -> (out: Result<Self, HfError>)
        ensures
            match parsed(reference@) {
                Ok(r) => out matches Ok(m) && m.refers_to() == r && m.projector == Mmproj::Auto
                    && m.cache is None && m.own_token is None,
                Err(fault) => out matches Err(
                    HfError::InvalidReference { reference: r, reason },
                ) && r@ == reference@ && reason@ == fault,
            },
    {
        match parse_reference(reference) {
            Ok(p) => {
                let mut model = HfModel::new(p.repo.as_str());
                model.quant = p.quant;
                model.file = p.file;
                Ok(model)
            },
            Err(e) => Err(e),
        }
    }

    /// Pick the file by quantization tag.
    pub fn quant(self, quant: &str) -> (out: Self)
        ensures
            out.quant matches Some(q) && q@ == quant@,
            out == (HfModel { quant: out.quant, ..self }),
    {
        let mut out = self;
        out.quant = Some(quant.to_owned());
        out
    }

    /// Pick this exact file.
    pub fn file(self, file: &str) -> (out: Self)
        ensures
            out.file matches Some(f) && f@ == file@,
            out == (HfModel { file: out.file, ..self }),
    {
        let mut out = self;
        out.file = Some(file.to_owned());
        out
    }

    /// The projector to download alongside the weights.
    pub fn mmproj(self, file: &str) -> (out: Self)
        ensures
            out.projector matches Mmproj::File(f) && f@ == file@,
            out == (HfModel { projector: out.projector, ..self }),
    {
        let mut out = self;
        out.projector = Mmproj::File(file.to_owned());
        out
    }

    /// Download no projector, even when the repo has one.
    pub fn without_mmproj(self) -> (out: Self)
        ensures
            out == (HfModel { projector: Mmproj::Nothing, ..self }),
    {
        let mut out = self;
        out.projector = Mmproj::Nothing;
        out
    }

    /// Where to cache the files.
    pub fn cache_dir(self, dir: &str) -> (out: Self)
        ensures
            out.cache matches Some(d) && d@ == dir@,
            out == (HfModel { cache: out.cache, ..self }),
    {
        let mut out = self;
        out.cache = Some(dir.to_owned());
        out
    }

    /// The token to send, instead of the environment's.
    pub fn token(self, token: &str) -> (out: Self)
        ensures
            out.own_token matches Some(t) && t@ == token@,
            out == (HfModel { own_token: out.own_token, ..self }),
    {
        let mut out = self;
        out.own_token = Some(token.to_owned());
        out
    }

    /// The cache directory this model reads and writes, given the default.
    pub fn effective_cache_dir(&self, default_dir: &str) -> (out: String)
        ensures
            out@ == (match self.cache {
                Some(dir) => dir@,
                None => default_dir@,
            }),
    {
        match &self.cache {
            Some(dir) => dir.clone(),
            None => default_dir.to_owned(),
        }
    }

    /// The model in words, its token left out; `progress` says whether
    /// anything watches its downloads.
    pub open spec fn description(self, progress: bool) -> Seq<char> {
        "HfModel { repo: "@ + debug_of(self.repo@) + ", quant: "@ + shown(view_of(self.quant))
            + ", file: "@ + shown(view_of(self.file)) + ", mmproj: "@ + (match self.projector {
            Mmproj::Auto => "Auto"@,
            Mmproj::Nothing => "None"@,
            Mmproj::File(file) => "File("@ + debug_of(file@) + ")"@,
        }) + ", cache_dir: "@ + shown(view_of(self.cache)) + ", token: "@ + (
        if self.own_token is Some {
            "Some(\"…\")"@
        } else {
            "None"@
        }) + ", progress: "@ + (if progress {
            "true"@
        } else {
            "false"@
        }) + " }"@
    }

    /// The model in words. Only whether there is a token is said, and
    /// whether anything watches its downloads.
    pub fn described(&self, progress: bool) -> (out: String)
        ensures
            out@ == self.description(progress),
    {
        let mut out = "HfModel { repo: ".to_owned();
        out.append(debug_text(self.repo.as_str()).as_str());
        out.append(", quant: ");
        push_shown(&mut out, &self.quant);
        out.append(", file: ");
        push_shown(&mut out, &self.file);
        out.append(", mmproj: ");
        let ghost head = out@;
        match &self.projector {
            Mmproj::Auto => out.append("Auto"),
            Mmproj::Nothing => out.append("None"),
            Mmproj::File(file) => {
                out.append("File(");
                out.append(debug_text(file.as_str()).as_str());
                out.append(")");
                assert(out@ =~= head + ("File("@ + debug_of(file@) + ")"@));
            },
        }
        out.append(", cache_dir: ");
        push_shown(&mut out, &self.cache);
        out.append(", token: ");
        if self.own_token.is_some() {
            out.append("Some(\"…\")");
        } else {
            out.append("None");
        }
        out.append(", progress: ");
        if progress {
            out.append("true");
        } else {
            out.append("false");
        }
        out.append(" }");
        out
    }

    /// The reference in `hf:` form.
    pub fn reference(&self) -> (out: String)
        ensures
            out@ == written(self.refers_to()),
    {
        let lead = "hf:".to_owned().concat(self.repo.as_str());
        match (&self.file, &self.quant) {
            (Some(file), _) => lead.concat(":").concat(file.as_str()),
            (None, Some(quant)) => lead.concat(":").concat(quant.as_str()),
            (None, None) => lead,
        }
    }
}

impl std::str::FromStr for HfModel {
    type Err = HfError;

    fn from_str(s: &str) -> (out: Result<Self, HfError>) {
        HfModel::parse(s)
    }
}

/// What a model is described as never depends on which token it holds.
pub proof fn a_token_is_never_shown(a: HfModel, b: HfModel, progress: bool)
    requires
        a == (HfModel { own_token: a.own_token, ..b }),
        a.own_token is Some,
        b.own_token is Some,
    ensures
        a.description(progress) == b.description(progress),
{
}

/// Whether a reference is one the grammar can express.
pub open spec fn sound(r: RefView) -> bool {
    &&& repo_fault(r.repo) is None
    &&& match (r.file, r.quant) {
        (Some(file), None) => names_gguf(file) && file_fault(file) is None,
        (None, Some(quant)) => quant.len() > 0 && !names_gguf(quant) && quant_fault(quant) is None,
        (None, None) => true,
        (Some(_), Some(_)) => false,
    }
}

/// Everything the parser accepts is sound.
pub proof fn what_parses_is_sound(s: Seq<char>)
    ensures
        parsed(s) matches Ok(r) ==> sound(r),
{
}

/// A name in a repo holds neither a colon nor a space, and does not begin
/// with a slash.
proof fn repo_chars(repo: Seq<char>)
    requires
        repo_fault(repo) is None,
    ensures
        repo.len() > 0,
        repo[0] != '/',
        forall|i: int| 0 <= i < repo.len() ==> #[trigger] repo[i] != ':' && !is_space(repo[i]),
{
    crate::seqs::first_at_is_first(repo, '/');
    let at = crate::seqs::first_at(repo, '/')->0;
    let owner = repo.take(at);
    let name = repo.skip(at + 1);
    assert(owner.len() > 0);
    assert(owner[0] == repo[0]);
    assert(repo[0] != '/') by {
        if repo[0] == '/' {
            assert(owner.contains('/'));
        }
    }
    assert forall|i: int| 0 <= i < repo.len() implies #[trigger] repo[i] != ':' && !is_space(
        repo[i],
    ) by {
        if i < at {
            assert(is_name_char(owner[i]));
        } else if i > at {
            assert(is_name_char(name[i - at - 1]));
            assert(repo[i] == name[i - at - 1]);
        }
    }
}

/// Texts that differ at a place: the one does not begin with the other.
proof fn not_a_prefix(prefix: Seq<char>, s: Seq<char>, i: int)
    requires
        0 <= i < prefix.len(),
        i < s.len(),
        prefix[i] != s[i],
    ensures
        !prefix.is_prefix_of(s),
{
    if prefix.len() <= s.len() {
        assert(s.subrange(0, prefix.len() as int)[i] == s[i]);
    }
}

/// What stands behind `hf:` is read as such, where it does not begin with a
/// slash or end with white space.
proof fn scheme_is_read(body: Seq<char>)
    requires
        body.len() > 0,
        body[0] != '/',
        !is_space(body.last()),
    ensures
        !padded("hf:"@ + body),
        after_host("hf:"@ + body) is None,
        after_scheme("hf:"@ + body) == Some(body),
{
    reveal_strlit("hf:");
    reveal_strlit("hf://");
    reveal_strlit("https://huggingface.co/");
    reveal_strlit("http://huggingface.co/");
    reveal_strlit("https://hf.co/");
    let s = "hf:"@ + body;
    assert(s[0] == 'h' && s[1] == 'f' && s[2] == ':' && s[3] == body[0]);
    assert(s.last() == body.last());
    not_a_prefix("https://huggingface.co/"@, s, 1);
    not_a_prefix("http://huggingface.co/"@, s, 1);
    not_a_prefix("https://hf.co/"@, s, 1);
    not_a_prefix("hf://"@, s, 3);
    assert("hf:"@ =~= s.subrange(0, 3));
    assert(s.skip(3) =~= body);
}

/// A repo and what stands behind its colon come apart at the colon.
proof fn cut_at_the_colon(repo: Seq<char>, suffix: Seq<char>)
    requires
        forall|i: int| 0 <= i < repo.len() ==> #[trigger] repo[i] != ':',
    ensures
        cut(repo, ':') is None,
        cut(repo + ":"@ + suffix, ':') == Some((repo, suffix)),
{
    reveal_strlit(":");
    let body = repo + ":"@ + suffix;
    let n = repo.len() as int;
    crate::seqs::first_at_is_first(repo, ':');
    assert(body[n] == ':');
    assert forall|k: int| 0 <= k < n implies body.take(n)[k] != ':' by {
        assert(body.take(n)[k] == repo[k]);
    }
    crate::seqs::first_at_index(body, ':', n);
    assert(body.take(n) =~= repo);
    assert(body.skip(n + 1) =~= suffix);
}

/// The suffix a reference is written with is read as what it says.
proof fn suffix_is_read(r: RefView, suffix: Seq<char>)
    requires
        sound(r),
        r.file == Some(suffix) || (r.file is None && r.quant == Some(suffix)),
    ensures
        suffix.len() > 0,
        !is_space(suffix.last()),
        parsed_suffix(r.repo, suffix) == Ok::<RefView, Seq<char>>(r),
{
    if r.file is Some {
        reveal_strlit(".gguf");
        assert(lower(suffix).len() == suffix.len());
        assert(suffix.last() == suffix[suffix.len() - 1]);
    } else {
        assert(is_name_char(suffix[suffix.len() - 1]));
    }
}

/// A reference written out parses back to itself.
pub proof fn a_written_reference_parses_back(r: RefView)
    requires
        sound(r),
    ensures
        parsed(written(r)) == Ok::<RefView, Seq<char>>(r),
{
    repo_chars(r.repo);
    let suffix = match (r.file, r.quant) {
        (Some(file), _) => Some(file),
        (None, quant) => quant,
    };
    match suffix {
        Some(x) => {
            reveal_strlit(":");
            suffix_is_read(r, x);
            cut_at_the_colon(r.repo, x);
            let body = r.repo + ":"@ + x;
            assert(body.last() == x.last());
            scheme_is_read(body);
            assert(written(r) =~= "hf:"@ + body);
        },
        None => {
            cut_at_the_colon(r.repo, Seq::empty());
            assert(!is_space(r.repo[r.repo.len() - 1]));
            scheme_is_read(r.repo);
            assert(written(r) =~= "hf:"@ + r.repo);
        },
    }
}

/// A reference that parses is a reference: the parser takes nothing that the
/// prefix check would let pass as a plain path.
pub proof fn what_parses_is_a_reference(s: Seq<char>)
    ensures
        parsed(s) is Ok ==> refers(s),
{
    reveal_strlit("hf:");
    reveal_strlit("hf://");
    if "hf://"@.is_prefix_of(s) {
        assert("hf:"@ =~= s.subrange(0, 3)) by {
            assert("hf://"@ == s.subrange(0, 5));
            assert(forall|i: int| 0 <= i < 3 ==> s[i] == s.subrange(0, 5)[i]);
        }
    }
}

// ── What is accepted ────────────────────────────────────────────────────────

/// A repo is an owner and a name with one slash between them, both of ASCII
/// letters, digits, `-`, `_` and `.`.
pub proof fn a_repo_is_an_owner_and_a_name(repo: Seq<char>)
    ensures
        repo_fault(repo) is None <==> exists|at: int|
            {
                &&& 0 < at < repo.len() - 1
                &&& #[trigger] repo[at] == '/'
                &&& forall|i: int|
                    0 <= i < repo.len() && i != at ==> is_name_char(#[trigger] repo[i])
            },
{
    crate::seqs::first_at_is_first(repo, '/');
    if repo_fault(repo) is None {
        let at = crate::seqs::first_at(repo, '/')->0;
        let owner = repo.take(at);
        let name = repo.skip(at + 1);
        assert(repo[at] == '/');
        assert forall|i: int| 0 <= i < repo.len() && i != at implies is_name_char(
            #[trigger] repo[i],
        ) by {
            if i < at {
                assert(is_name_char(owner[i]));
            } else {
                assert(is_name_char(name[i - at - 1]));
            }
        }
    }
    if exists|at: int|
        {
            &&& 0 < at < repo.len() - 1
            &&& #[trigger] repo[at] == '/'
            &&& forall|i: int| 0 <= i < repo.len() && i != at ==> is_name_char(#[trigger] repo[i])
        } {
        let at = choose|at: int|
            {
                &&& 0 < at < repo.len() - 1
                &&& #[trigger] repo[at] == '/'
                &&& forall|i: int|
                    0 <= i < repo.len() && i != at ==> is_name_char(#[trigger] repo[i])
            };
        assert forall|k: int| 0 <= k < at implies repo.take(at)[k] != '/' by {
            assert(is_name_char(repo[k]));
        }
        crate::seqs::first_at_index(repo, '/', at);
        let owner = repo.take(at);
        let name = repo.skip(at + 1);
        assert forall|i: int| 0 <= i < owner.len() implies is_name_char(#[trigger] owner[i]) by {
            assert(owner[i] == repo[i]);
        }
        assert forall|i: int| 0 <= i < name.len() implies is_name_char(#[trigger] name[i]) && name[i]
            != '/' by {
            assert(name[i] == repo[i + at + 1]);
        }
        assert(!name.contains('/'));
    }
}

/// What a reference parses to: a tag is a run of name characters, and a file
/// is a `.gguf` without white space that does not leave the repo. It names a
/// tag or a file, never both.
pub proof fn what_a_reference_may_name(s: Seq<char>)
    ensures
        parsed(s) matches Ok(r) ==> {
            &&& repo_fault(r.repo) is None
            &&& r.quant is None || r.file is None
            &&& r.quant matches Some(quant) ==> quant.len() > 0 && forall|i: int|
                0 <= i < quant.len() ==> is_name_char(#[trigger] quant[i])
            &&& r.file matches Some(file) ==> {
                &&& ".gguf"@.is_suffix_of(lower(file))
                &&& forall|i: int| 0 <= i < file.len() ==> !is_space(#[trigger] file[i])
                &&& forall|i: int|
                    0 <= i < path_parts(file).len() ==> (#[trigger] path_parts(file)[i]).len() > 0
                        && path_parts(file)[i] != ".."@
            }
        },
{
}

/// White space around a reference is refused, and so is what begins with none
/// of the ways to name the Hub.
pub proof fn what_is_no_reference(s: Seq<char>)
    ensures
        s.len() > 0 && (is_space(s[0]) || is_space(s.last())) ==> parsed(s) is Err,
        !refers(s) ==> parsed(s) is Err,
{
    what_parses_is_a_reference(s);
}

proof fn nothing_to_cut(s: Seq<char>)
    requires
        forall|i: int| 0 <= i < s.len() ==> #[trigger] s[i] != '?' && s[i] != '#',
    ensures
        before_query(s) == s,
    decreases s.len(),
{
    if s.len() > 0 {
        let rest = s.drop_first();
        assert forall|i: int| 0 <= i < rest.len() implies #[trigger] rest[i] != '?' && rest[i]
            != '#' by {
            assert(rest[i] == s[i + 1]);
        }
        nothing_to_cut(rest);
        assert(seq![s[0]] + rest =~= s);
    }
}

proof fn cut_behind(head: Seq<char>, tail: Seq<char>)
    requires
        forall|i: int| 0 <= i < head.len() ==> #[trigger] head[i] != '/',
    ensures
        cut(head, '/') is None,
        cut(head + "/"@ + tail, '/') == Some((head, tail)),
{
    reveal_strlit("/");
    let all = head + "/"@ + tail;
    let n = head.len() as int;
    crate::seqs::first_at_is_first(head, '/');
    assert(all[n] == '/');
    assert forall|k: int| 0 <= k < n implies all.take(n)[k] != '/' by {
        assert(all.take(n)[k] == head[k]);
    }
    crate::seqs::first_at_index(all, '/', n);
    assert(all.take(n) =~= head);
    assert(all.skip(n + 1) =~= tail);
}

/// The ways a link to the Hub begins.
pub open spec fn is_host(host: Seq<char>) -> bool {
    host == "https://huggingface.co/"@ || host == "http://huggingface.co/"@ || host
        == "https://hf.co/"@
}

proof fn host_is_read(host: Seq<char>, rest: Seq<char>)
    requires
        is_host(host),
        rest.len() > 0,
        !is_space(rest.last()),
    ensures
        !padded(host + rest),
        after_host(host + rest) == Some(rest),
{
    reveal_strlit("https://huggingface.co/");
    reveal_strlit("http://huggingface.co/");
    reveal_strlit("https://hf.co/");
    let s = host + rest;
    assert(s[0] == 'h');
    assert(s.last() == rest.last());
    assert(s.subrange(0, host.len() as int) =~= host);
    assert(s.skip(host.len() as int) =~= rest);
    if host == "http://huggingface.co/"@ {
        assert(s[4] == ':');
        not_a_prefix("https://huggingface.co/"@, s, 4);
    } else if host == "https://hf.co/"@ {
        assert(s[9] == 'f');
        not_a_prefix("https://huggingface.co/"@, s, 9);
        assert(s[4] == 's');
        not_a_prefix("http://huggingface.co/"@, s, 4);
    }
}

/// A link to a repo's page means the repo, and a link to one of its files
/// means that file, whatever the revision.
pub proof fn a_link_means_what_it_shows(
    host: Seq<char>,
    owner: Seq<char>,
    name: Seq<char>,
    revision: Seq<char>,
    file: Seq<char>,
)
    requires
        is_host(host),
        owner.len() > 0,
        name.len() > 0,
        plain_name(owner),
        plain_name(name),
        plain_name(revision),
        names_gguf(file),
        file_fault(file) is None,
        forall|i: int| 0 <= i < file.len() ==> #[trigger] file[i] != '?' && file[i] != '#',
    ensures
        ({
            let repo = owner + "/"@ + name;
            &&& parsed(host + repo) == Ok::<RefView, Seq<char>>(
                RefView { repo, quant: None, file: None },
            )
            &&& parsed(host + (repo + "/"@ + ("resolve"@ + "/"@ + (revision + "/"@ + file)))) == Ok::<
                RefView,
                Seq<char>,
            >(RefView { repo, quant: None, file: Some(file) })
            &&& parsed(host + (repo + "/"@ + ("blob"@ + "/"@ + (revision + "/"@ + file)))) == Ok::<
                RefView,
                Seq<char>,
            >(RefView { repo, quant: None, file: Some(file) })
        }),
{
    reveal_strlit("/");
    let repo = owner + "/"@ + name;
    assert(repo[owner.len() as int] == '/');
    assert forall|i: int| 0 <= i < repo.len() && i != owner.len() implies is_name_char(
        #[trigger] repo[i],
    ) by {
        if i < owner.len() {
            assert(repo[i] == owner[i]);
        } else {
            assert(repo[i] == name[i - owner.len() - 1]);
        }
    }
    a_repo_is_an_owner_and_a_name(repo);
    assert(repo.last() == name.last());
    assert(is_name_char(name[name.len() - 1]));
    // The page.
    nothing_to_cut(repo);
    cut_behind(owner, name);
    cut_behind(name, Seq::empty());
    host_is_read(host, repo);
    assert(trim_slashes(repo) == repo);
    // A file's link.
    reveal_strlit("resolve");
    reveal_strlit("blob");
    reveal_strlit("tree");
    assert("resolve"@.len() == 7 && "blob"@.len() == 4 && "tree"@.len() == 4);
    assert("blob"@[0] == 'b' && "tree"@[0] == 't');
    a_file_link(host, owner, name, "resolve"@, revision, file);
    a_file_link(host, owner, name, "blob"@, revision, file);
}

proof fn a_file_link(
    host: Seq<char>,
    owner: Seq<char>,
    name: Seq<char>,
    kind: Seq<char>,
    revision: Seq<char>,
    file: Seq<char>,
)
    requires
        is_host(host),
        owner.len() > 0,
        name.len() > 0,
        plain_name(owner),
        plain_name(name),
        plain_name(revision),
        plain_name(kind),
        repo_fault(owner + "/"@ + name) is None,
        kind == "resolve"@ || kind == "blob"@,
        kind != "tree"@,
        names_gguf(file),
        file_fault(file) is None,
        forall|i: int| 0 <= i < file.len() ==> #[trigger] file[i] != '?' && file[i] != '#',
    ensures
        parsed(host + ((owner + "/"@ + name) + "/"@ + (kind + "/"@ + (revision + "/"@ + file))))
            == Ok::<RefView, Seq<char>>(
            RefView { repo: owner + "/"@ + name, quant: None, file: Some(file) },
        ),
{
    reveal_strlit("/");
    reveal_strlit(".gguf");
    let repo = owner + "/"@ + name;
    let inner = revision + "/"@ + file;
    let tail = kind + "/"@ + inner;
    let rest = repo + "/"@ + tail;
    let other = owner + "/"@ + (name + "/"@ + tail);
    assert(rest =~= other);
    assert(lower(file).len() == file.len());
    assert(file.len() >= 5);
    assert(rest.last() == file.last());
    assert(lower(file).subrange(lower(file).len() - 5, lower(file).len() as int)[4] == 'f');
    assert(lower(file)[file.len() - 1] == 'f');
    assert(file.last() != '/');
    assert(!is_space(file[file.len() - 1]));
    assert forall|i: int| 0 <= i < rest.len() implies #[trigger] rest[i] != '?' && rest[i] != '#' by {
        let a = owner.len() as int;
        let b = a + 1 + name.len() as int;
        let c = b + 1 + kind.len() as int;
        let d = c + 1 + revision.len() as int;
        if i < a {
            assert(is_name_char(owner[i]));
        } else if a < i < b {
            assert(is_name_char(name[i - a - 1]));
        } else if b < i < c {
            assert(is_name_char(kind[i - b - 1]));
        } else if c < i < d {
            assert(is_name_char(revision[i - c - 1]));
        } else if d < i {
            assert(rest[i] == file[i - d - 1]);
        }
    }
    nothing_to_cut(rest);
    host_is_read(host, rest);
    cut_behind(owner, name + "/"@ + tail);
    cut_behind(name, tail);
    cut_behind(kind, inner);
    cut_behind(revision, file);
    assert(trim_slashes(rest) == rest);
}

/// What a path has to begin with to be a reference to the Hub.
pub proof fn what_begins_a_reference(rest: Seq<char>)
    ensures
        refers("hf:"@ + rest),
        refers("hf.co/"@ + rest),
        refers("https://huggingface.co/"@ + rest),
        refers("https://hf.co/"@ + rest),
        refers("http://huggingface.co/"@ + rest),
        rest.len() == 0 || rest[0] != 'h' ==> !refers(rest),
{
    begins_with("hf:"@, rest);
    begins_with("hf.co/"@, rest);
    begins_with("https://huggingface.co/"@, rest);
    begins_with("https://hf.co/"@, rest);
    begins_with("http://huggingface.co/"@, rest);
    reveal_strlit("hf:");
    reveal_strlit("hf.co/");
    reveal_strlit("https://huggingface.co/");
    reveal_strlit("https://hf.co/");
    reveal_strlit("http://huggingface.co/");
    if rest.len() > 0 && rest[0] != 'h' {
        not_a_prefix("hf:"@, rest, 0);
        not_a_prefix("hf.co/"@, rest, 0);
        not_a_prefix("https://huggingface.co/"@, rest, 0);
        not_a_prefix("https://hf.co/"@, rest, 0);
        not_a_prefix("http://huggingface.co/"@, rest, 0);
    }
}

proof fn begins_with(prefix: Seq<char>, rest: Seq<char>)
    ensures
        prefix.is_prefix_of(prefix + rest),
        (prefix + rest).skip(prefix.len() as int) == rest,
{
    assert((prefix + rest).subrange(0, prefix.len() as int) =~= prefix);
    assert((prefix + rest).skip(prefix.len() as int) =~= rest);
}

/// `hf:`, `hf://` and `hf.co/` are three ways to write one reference.
pub proof fn three_ways_to_write_one_reference(body: Seq<char>)
    requires
        body.len() > 0,
        body[0] != '/',
        !is_space(body.last()),
    ensures
        parsed("hf://"@ + body) == parsed("hf:"@ + body),
        parsed("hf.co/"@ + body) == parsed("hf:"@ + body),
{
    scheme_is_read(body);
    reveal_strlit("hf:");
    reveal_strlit("hf://");
    reveal_strlit("hf.co/");
    reveal_strlit("https://huggingface.co/");
    reveal_strlit("http://huggingface.co/");
    reveal_strlit("https://hf.co/");
    let slashed = "hf://"@ + body;
    let site = "hf.co/"@ + body;
    begins_with("hf://"@, body);
    begins_with("hf.co/"@, body);
    assert(slashed[0] == 'h' && slashed[1] == 'f' && slashed.last() == body.last());
    assert(site[0] == 'h' && site[1] == 'f' && site[2] == '.' && site.last() == body.last());
    not_a_prefix("https://huggingface.co/"@, slashed, 1);
    not_a_prefix("http://huggingface.co/"@, slashed, 1);
    not_a_prefix("https://hf.co/"@, slashed, 1);
    not_a_prefix("https://huggingface.co/"@, site, 1);
    not_a_prefix("http://huggingface.co/"@, site, 1);
    not_a_prefix("https://hf.co/"@, site, 1);
    not_a_prefix("hf://"@, site, 2);
    not_a_prefix("hf:"@, site, 2);
}

} // verus!
