//! From a reference to files: what the cache answers, what a listing
//! answers, what the Hub's refusals mean.
//!
//! Nothing here touches the disk or the network. The functions take what was
//! listed, or what came back, and say what it means.
use vstd::prelude::*;
use vstd::string::*;
use crate::error::Error;
use crate::hf::{is_reference, parsed, refers, HfError, HfModel, Mmproj};
use crate::hf_files::{
    choose_listed, choose_listed_mmproj, chosen, first_of, inhabited, list_files, listing,
    projector_chosen, wanted_tag, Choice, ChoiceView, FileView, GgufFile, Tier,
};
use crate::message::copy_text;
use crate::seqs::{group_views, view_of, views};
use crate::text::{
    chars_of, decimal, no_later, push_decimal, same_chars, same_text, string_of, text_le,
    text_le_chain, text_le_same, text_le_total, trim, trimmed,
};

verus! {

broadcast use group_views;

// ── Where files are kept ────────────────────────────────────────────────────

/// What the environment says of where models are kept. Empty settings count
/// as unset.
#[derive(Debug, PartialEq, Eq)]
pub struct CacheEnv {
    /// `GEN2_MODELS_DIR`.
    pub models_dir: Option<String>,
    /// `HF_HUB_CACHE`.
    pub hub_cache: Option<String>,
    /// `HUGGINGFACE_HUB_CACHE`.
    pub old_hub_cache: Option<String>,
    /// `HF_HOME`.
    pub home: Option<String>,
}

/// A path below a directory.
pub open spec fn joined(dir: Seq<char>, part: Seq<char>) -> Seq<char> {
    if dir.len() == 0 {
        part
    } else if dir.last() == '/' {
        dir + part
    } else {
        dir + "/"@ + part
    }
}

/// A path below a directory.
pub fn join(dir: &str, part: &str) -> (out: String)
    ensures
        out@ == joined(dir@, part@),
{
    let chars = chars_of(dir);
    if chars.len() == 0 {
        part.to_owned()
    } else if chars[chars.len() - 1] == '/' {
        dir.to_owned().concat(part)
    } else {
        dir.to_owned().concat("/").concat(part)
    }
}

/// The directory models are kept in, before it is anchored.
pub open spec fn models_dir(
    env: CacheEnv,
    platform: Option<Seq<char>>,
    temp: Seq<char>,
) -> Seq<char> {
    match env.models_dir {
        Some(dir) => dir@,
        None => match env.hub_cache {
            Some(dir) => dir@,
            None => match env.old_hub_cache {
                Some(dir) => dir@,
                None => match env.home {
                    Some(home) => joined(home@, "hub"@),
                    None => {
                        let base = match platform {
                            Some(dir) => dir,
                            None => temp,
                        };
                        joined(joined(base, "gen2"@), "hf"@)
                    },
                },
            },
        },
    }
}

/// The directory `hf:` references download into.
///
/// The first set of `GEN2_MODELS_DIR`, `HF_HUB_CACHE`,
/// `HUGGINGFACE_HUB_CACHE`, `$HF_HOME/hub`; else the platform cache
/// directory plus `gen2/hf`; else `gen2/hf` under the system temp dir.
pub fn cache_dir_from(env: &CacheEnv, platform: Option<&str>, temp: &str) -> (out: String)
    ensures
        out@ == models_dir(*env, (match platform {
            Some(dir) => Some(dir@),
            None => None,
        }), temp@),
{
    if let Some(dir) = &env.models_dir {
        dir.clone()
    } else if let Some(dir) = &env.hub_cache {
        dir.clone()
    } else if let Some(dir) = &env.old_hub_cache {
        dir.clone()
    } else if let Some(home) = &env.home {
        join(home.as_str(), "hub")
    } else {
        let base = platform.unwrap_or(temp);
        join(join(base, "gen2").as_str(), "hf")
    }
}

/// A directory anchored to the working directory, unless it is absolute.
pub fn anchored(dir: &str, absolute: bool, working: Option<&str>) -> (out: String)
    ensures
        out@ == (match working {
            Some(base) if !absolute => joined(base@, dir@),
            _ => dir@,
        }),
{
    match working {
        Some(base) => if absolute {
            dir.to_owned()
        } else {
            join(base, dir)
        },
        None => dir.to_owned(),
    }
}

/// A repo's name with `--` for each `/`.
pub open spec fn dashes(repo: Seq<char>) -> Seq<char>
    decreases repo.len(),
{
    if repo.len() == 0 {
        repo
    } else if repo.last() == '/' {
        dashes(repo.drop_last()) + "--"@
    } else {
        dashes(repo.drop_last()).push(repo.last())
    }
}

/// The Hub layout's directory for a repo: `models--owner--name`.
pub fn repo_dir_name(repo: &str) -> (out: String)
    ensures
        out@ == "models--"@ + dashes(repo@),
{
    let chars = chars_of(repo);
    let mut out = "models--".to_owned();
    let mut i: usize = 0;
    assert(repo@.take(0) =~= Seq::empty());
    assert(out@ =~= "models--"@ + dashes(repo@.take(0)));
    while i < chars.len()
        invariant
            i <= chars.len(),
            chars@ == repo@,
            out@ == "models--"@ + dashes(repo@.take(i as int)),
        decreases chars.len() - i,
    {
        assert(repo@.take(i + 1).drop_last() =~= repo@.take(i as int));
        let c: char = chars[i];
        if c == '/' {
            out.append("--");
        } else {
            out.push(c);
        }
        assert(out@ =~= "models--"@ + dashes(repo@.take(i + 1)));
        i += 1;
    }
    assert(repo@.take(repo@.len() as int) =~= repo@);
    out
}

/// The snapshot a repo's ref names, given what the ref's file holds.
pub fn pinned_snapshot(held: Option<&str>) -> (out: Option<String>)
    ensures
        view_of(out) == (match held {
            Some(text) if trimmed(text@).len() > 0 => Some(trimmed(text@)),
            _ => None,
        }),
{
    match held {
        Some(text) => {
            let name = trim(chars_of(text).as_slice());
            if name.len() > 0 {
                Some(string_of(name.as_slice()))
            } else {
                None
            }
        },
        None => None,
    }
}

// ── What the cache holds ────────────────────────────────────────────────────

/// Whether files are in order of name, no name twice.
pub open spec fn by_name(files: Seq<(Seq<char>, Option<u64>)>) -> bool {
    forall|i: int, j: int|
        #![trigger files[i], files[j]]
        0 <= i < j < files.len() ==> text_le(files[i].0, files[j].0) && files[i].0 != files[j].0
}

/// Whether a file is the first of its name.
pub open spec fn first_named(
    files: Seq<(Seq<char>, Option<u64>)>,
    file: (Seq<char>, Option<u64>),
) -> bool {
    exists|i: int|
        {
            &&& 0 <= i < files.len()
            &&& #[trigger] files[i] == file
            &&& forall|k: int| 0 <= k < i ==> (#[trigger] files[k]).0 != file.0
        }
}

/// Whether a name is among files.
pub open spec fn name_in(files: Seq<(Seq<char>, Option<u64>)>, name: Seq<char>) -> bool {
    exists|i: int| 0 <= i < files.len() && (#[trigger] files[i]).0 == name
}

/// Files in order of name, of those with one name the first.
pub fn tidy(files: Vec<GgufFile>) -> (out: Vec<GgufFile>)
    ensures
        by_name(views(out@)),
        forall|i: int|
            0 <= i < out.len() ==> first_named(views(files@), #[trigger] views(out@)[i]),
        forall|i: int|
            0 <= i < files.len() ==> name_in(views(out@), (#[trigger] views(files@)[i]).0),
{
    let ghost all = views(files@);
    let mut out: Vec<GgufFile> = Vec::new();
    let mut n: usize = 0;
    while n < files.len()
        invariant
            n <= files.len(),
            all == views(files@),
            by_name(views(out@)),
            forall|i: int| 0 <= i < out.len() ==> first_named(all, #[trigger] views(out@)[i]),
            forall|i: int| 0 <= i < n ==> name_in(views(out@), (#[trigger] all[i]).0),
            forall|i: int|
                0 <= i < out.len() ==> name_in(all.take(n as int), (#[trigger] views(out@)[i]).0),
        decreases files.len() - n,
    {
        let ghost kept = views(out@);
        let name = chars_of(files[n].name.as_str());
        let mut at: usize = 0;
        while at < out.len() && !no_later(name.as_slice(), chars_of(out[at].name.as_str()).as_slice())
            invariant
                at <= out.len(),
                kept == views(out@),
                forall|j: int| 0 <= j < at ==> !text_le(name@, (#[trigger] kept[j]).0),
            decreases out.len() - at,
        {
            at += 1;
        }
        let ghost file = all[n as int];
        assert(file.0 == name@);
        if at < out.len() && same_chars(
            name.as_slice(),
            chars_of(out[at].name.as_str()).as_slice(),
        ) {
            assert(kept[at as int].0 == file.0);
            proof {
                more_names(all, n as int, kept);
            }
        } else {
            out.insert(at, files[n].clone());
            assert(views(out@) =~= kept.insert(at as int, file));
            proof {
                tidy_inserts(all, n as int, kept, at as int);
            }
        }
        n += 1;
    }
    out
}

/// A longer listing names what a shorter one does.
proof fn more_names(
    all: Seq<(Seq<char>, Option<u64>)>,
    n: int,
    kept: Seq<(Seq<char>, Option<u64>)>,
)
    requires
        0 <= n < all.len(),
        forall|i: int| 0 <= i < kept.len() ==> name_in(all.take(n), (#[trigger] kept[i]).0),
    ensures
        forall|i: int| 0 <= i < kept.len() ==> name_in(all.take(n + 1), (#[trigger] kept[i]).0),
{
    assert forall|i: int| 0 <= i < kept.len() implies name_in(
        all.take(n + 1),
        (#[trigger] kept[i]).0,
    ) by {
        assert(name_in(all.take(n), kept[i].0));
        let k = choose|k: int| 0 <= k < n && (#[trigger] all.take(n)[k]).0 == kept[i].0;
        assert(all.take(n + 1)[k] == all.take(n)[k]);
    }
}

/// A file of a new name goes in its place.
proof fn tidy_inserts(
    all: Seq<(Seq<char>, Option<u64>)>,
    n: int,
    kept: Seq<(Seq<char>, Option<u64>)>,
    at: int,
)
    requires
        0 <= n < all.len(),
        0 <= at <= kept.len(),
        by_name(kept),
        forall|i: int| 0 <= i < kept.len() ==> first_named(all, #[trigger] kept[i]),
        forall|i: int| 0 <= i < n ==> name_in(kept, (#[trigger] all[i]).0),
        forall|i: int| 0 <= i < kept.len() ==> name_in(all.take(n), (#[trigger] kept[i]).0),
        forall|j: int| 0 <= j < at ==> !text_le(all[n].0, (#[trigger] kept[j]).0),
        at < kept.len() ==> text_le(all[n].0, kept[at].0) && all[n].0 != kept[at].0,
    ensures
        ({
            let out = kept.insert(at, all[n]);
            &&& by_name(out)
            &&& forall|i: int| 0 <= i < out.len() ==> first_named(all, #[trigger] out[i])
            &&& forall|i: int| 0 <= i < n + 1 ==> name_in(out, (#[trigger] all[i]).0)
            &&& forall|i: int|
                0 <= i < out.len() ==> name_in(all.take(n + 1), (#[trigger] out[i]).0)
        }),
{
    let file = all[n];
    let out = kept.insert(at, file);
    text_le_total(file.0, file.0);
    assert forall|j: int| 0 <= j < kept.len() implies (#[trigger] kept[j]).0 != file.0 && (if j
        < at {
        text_le(kept[j].0, file.0)
    } else {
        text_le(file.0, kept[j].0)
    }) by {
        if j < at {
            text_le_total(kept[j].0, file.0);
        } else if j > at {
            assert(text_le(kept[at].0, kept[j].0));
            text_le_chain(file.0, kept[at].0, kept[j].0);
            if kept[j].0 == file.0 {
                text_le_same(file.0, kept[at].0);
            }
        }
    }
    assert forall|i: int, j: int|
        #![trigger out[i], out[j]]
        0 <= i < j < out.len() implies text_le(out[i].0, out[j].0) && out[i].0 != out[j].0 by {
        let a = if i < at {
            i
        } else {
            i - 1
        };
        let b = if j < at {
            j
        } else {
            j - 1
        };
        if i != at {
            assert(out[i] == kept[a]);
        }
        if j != at {
            assert(out[j] == kept[b]);
        }
    }
    assert forall|i: int| 0 <= i < out.len() implies first_named(all, #[trigger] out[i]) && name_in(
        all.take(n + 1),
        out[i].0,
    ) by {
        if i == at {
            assert forall|k: int| 0 <= k < n implies (#[trigger] all[k]).0 != file.0 by {
                assert(name_in(kept, all[k].0));
                let j = choose|j: int| 0 <= j < kept.len() && (#[trigger] kept[j]).0 == all[k].0;
                assert(kept[j].0 != file.0);
            }
            assert(all[n] == file);
            assert(all.take(n + 1)[n] == file);
        } else {
            let a = if i < at {
                i
            } else {
                i - 1
            };
            assert(out[i] == kept[a]);
            more_names(all, n, kept);
        }
    }
    assert forall|i: int| 0 <= i < n + 1 implies name_in(out, (#[trigger] all[i]).0) by {
        if i == n {
            assert(out[at].0 == all[i].0);
        } else {
            assert(name_in(kept, all[i].0));
            let j = choose|j: int| 0 <= j < kept.len() && (#[trigger] kept[j]).0 == all[i].0;
            let b = if j < at {
                j
            } else {
                j + 1
            };
            assert(out[b] == kept[j]);
        }
    }
}

// ── What a reference resolves to ────────────────────────────────────────────

/// The files a reference resolved to, by name.
#[derive(Debug, PartialEq, Eq)]
pub struct HfResolved {
    /// `owner/name`.
    pub repo: String,
    /// The model file within the repo.
    pub file: String,
    /// The projector within the repo, when one was chosen.
    pub mmproj: Option<String>,
    /// Whether the cache answered without listing the repo.
    pub from_cache: bool,
}

/// What a reference resolved to, mathematically.
pub struct ResolvedView {
    pub repo: Seq<char>,
    pub file: Seq<char>,
    pub mmproj: Option<Seq<char>>,
    pub from_cache: bool,
}

impl View for HfResolved {
    type V = ResolvedView;

    open spec fn view(&self) -> ResolvedView {
        ResolvedView {
            repo: self.repo@,
            file: self.file@,
            mmproj: view_of(self.mmproj),
            from_cache: self.from_cache,
        }
    }
}

impl Clone for HfResolved {
    fn clone(&self) -> (out: Self)
        ensures
            out == *self,
    {
        HfResolved {
            repo: self.repo.clone(),
            file: self.file.clone(),
            mmproj: copy_text(&self.mmproj),
            from_cache: self.from_cache,
        }
    }
}

/// Local paths for a downloaded reference.
#[derive(Debug, PartialEq, Eq)]
pub struct HfDownload {
    /// What was chosen.
    pub resolved: HfResolved,
    /// The model file on disk.
    pub model: String,
    /// The projector on disk, when one was chosen.
    pub mmproj: Option<String>,
    /// Whether every file was already cached — no bytes moved.
    pub cache_hit: bool,
}

/// A file on disk, and whether it was there already.
#[derive(Debug, PartialEq, Eq)]
pub struct Fetched {
    pub path: String,
    pub hit: bool,
}

impl HfDownload {
    /// The files of a reference, once each is on disk.
    pub fn gathered(resolved: HfResolved, model: Fetched, mmproj: Option<Fetched>) -> (out: Self)
        ensures
            out.resolved == resolved,
            out.model == model.path,
            out.mmproj == (match mmproj {
                Some(f) => Some(f.path),
                None => None,
            }),
            out.cache_hit == (model.hit && (mmproj matches Some(f) ==> f.hit)),
    {
        match mmproj {
            Some(f) => HfDownload {
                resolved,
                model: model.path,
                mmproj: Some(f.path),
                cache_hit: model.hit && f.hit,
            },
            None => HfDownload {
                resolved,
                model: model.path,
                mmproj: None,
                cache_hit: model.hit,
            },
        }
    }
}

/// One download's running total.
#[derive(Debug, PartialEq, Eq)]
pub struct Progress {
    /// The file within the repo.
    pub file: String,
    /// Bytes received so far.
    pub bytes: u64,
    /// Bytes expected. Zero when the size is not known yet.
    pub total: u64,
}

impl Progress {
    /// What to report of a download, if there is anything to.
    pub fn of(file: &str, bytes: u64, total: u64) -> (out: Option<Progress>)
        ensures
            match out {
                Some(p) => (bytes != 0 || total != 0) && p.file@ == file@ && p.bytes == bytes
                    && p.total == total,
                None => bytes == 0 && total == 0,
            },
    {
        if bytes == 0 && total == 0 {
            None
        } else {
            Some(Progress { file: file.to_owned(), bytes, total })
        }
    }

    /// The fraction received, as bytes and total, when the total is known.
    pub fn ratio(&self) -> (out: Option<(u64, u64)>)
        ensures
            out == (if self.total > 0 {
                Some((self.bytes, self.total))
            } else {
                None
            }),
    {
        if self.total > 0 {
            Some((self.bytes, self.total))
        } else {
            None
        }
    }
}

/// Whether a listing holds a file by that name.
pub open spec fn has_file(files: Seq<FileView>, name: Seq<char>) -> bool {
    exists|i: int| 0 <= i < files.len() && (#[trigger] files[i]).name == name
}

fn holds_file(files: &[GgufFile], name: &str) -> (out: bool)
    ensures
        out == has_file(listing(views(files@)), name@),
{
    let ghost all = listing(views(files@));
    let mut i: usize = 0;
    while i < files.len()
        invariant
            i <= files.len(),
            all == listing(views(files@)),
            forall|k: int| 0 <= k < i ==> (#[trigger] all[k]).name != name@,
        decreases files.len() - i,
    {
        assert(all[i as int].name == files@[i as int].name@);
        if same_text(files[i].name.as_str(), name) {
            return true;
        }
        i += 1;
    }
    false
}

/// Whether a name is the file the cache alone can answer with: the exact
/// file, or the exact tag asked for.
pub open spec fn cached_file(
    model: HfModel,
    files: Seq<FileView>,
    name: Option<Seq<char>>,
) -> bool {
    match model.file {
        Some(file) => name == (if has_file(files, file@) {
            Some(file@)
        } else {
            None
        }),
        None => {
            let wanted = wanted_tag(view_of(model.quant));
            if inhabited(files, Tier::Tagged, wanted) {
                name matches Some(n) && first_of(files, Tier::Tagged, wanted, n)
            } else {
                name is None
            }
        },
    }
}

/// Whether a projector is what the cache alone can answer with. `None` where
/// it cannot: a projector named but not cached.
pub open spec fn cached_projector(
    model: HfModel,
    files: Seq<FileView>,
    name: Option<Option<Seq<char>>>,
) -> bool {
    match model.projector {
        Mmproj::Nothing => name == Some(None::<Seq<char>>),
        Mmproj::File(file) => name == (if has_file(files, file@) {
            Some(Some(file@))
        } else {
            None
        }),
        Mmproj::Auto => name matches Some(choice) && projector_chosen(files, choice),
    }
}

/// Whether an answer is the cache's own.
pub open spec fn cache_answers(
    model: HfModel,
    files: Seq<FileView>,
    answer: Option<ResolvedView>,
) -> bool {
    match answer {
        Some(r) => {
            &&& r.repo == model.repo@
            &&& r.from_cache
            &&& cached_file(model, files, Some(r.file))
            &&& cached_projector(model, files, Some(r.mmproj))
        },
        None => cached_file(model, files, None) || cached_projector(model, files, None),
    }
}

/// What a reference with an exact file resolves to where no projector has to
/// be looked for.
pub open spec fn named_outright(model: HfModel) -> Option<ResolvedView> {
    match (model.file, model.projector) {
        (Some(file), Mmproj::Nothing) => Some(
            ResolvedView { repo: model.repo@, file: file@, mmproj: None, from_cache: false },
        ),
        (Some(file), Mmproj::File(name)) => Some(
            ResolvedView { repo: model.repo@, file: file@, mmproj: Some(name@), from_cache: false },
        ),
        _ => None,
    }
}

/// Whether an outcome is what a listing of the repo calls for.
pub open spec fn listing_answers(
    model: HfModel,
    files: Seq<FileView>,
    out: Result<HfResolved, HfError>,
) -> bool {
    let quant = view_of(model.quant);
    match out {
        Ok(r) => {
            &&& r.repo@ == model.repo@
            &&& !r.from_cache
            &&& match model.file {
                Some(file) => r.file@ == file@ && has_file(files, file@),
                None => chosen(files, quant, ChoiceView::Exact(r.file@)) || chosen(
                    files,
                    quant,
                    ChoiceView::Fallback(r.file@),
                ),
            }
            &&& match model.projector {
                Mmproj::Nothing => r.mmproj is None,
                Mmproj::File(name) => view_of(r.mmproj) == Some(name@),
                Mmproj::Auto => projector_chosen(files, view_of(r.mmproj)),
            }
        },
        Err(HfError::FileNotFound { repo, file }) => {
            &&& repo@ == model.repo@
            &&& model.file matches Some(named) && named@ == file@ && !has_file(files, file@)
        },
        Err(HfError::QuantNotFound { repo, quant: tag, available }) => {
            &&& repo@ == model.repo@
            &&& model.file is None
            &&& quant == Some(tag@)
            &&& chosen(files, quant, ChoiceView::QuantMissing(views(available@)))
        },
        Err(HfError::NoGguf { repo }) => {
            &&& repo@ == model.repo@
            &&& model.file is None
            &&& chosen(files, quant, ChoiceView::NoGguf)
        },
        Err(_) => false,
    }
}

/// What is left to do for a reference.
#[derive(Debug, PartialEq, Eq)]
pub enum Plan {
    /// The names are known.
    Known(HfResolved),
    /// The repo has to be listed.
    List,
}

impl HfModel {
    /// What the cache alone can answer, given what it holds for the repo: the
    /// exact file, or the exact tag asked for (never a fallback tier — the Hub
    /// may hold the better file).
    pub fn resolve_from_cache(&self, files: &[GgufFile]) -> (out: Option<HfResolved>)
        ensures
            cache_answers(*self, listing(views(files@)), view_of(out)),
    {
        let listed = list_files(files);
        let file = match &self.file {
            Some(file) => {
                if !holds_file(files, file.as_str()) {
                    return None;
                }
                file.clone()
            },
            None => {
                let quant: Option<&str> = match &self.quant {
                    Some(tag) => Some(tag.as_str()),
                    None => None,
                };
                let choice = choose_listed(&listed, quant);
                proof {
                    tagged_is_any(views(listed@), wanted_tag(view_of(self.quant)));
                }
                match choice {
                    Choice::Exact(name) => name,
                    _ => {
                        return None;
                    },
                }
            },
        };
        let mmproj = match &self.projector {
            Mmproj::Nothing => None,
            Mmproj::File(name) => {
                if !holds_file(files, name.as_str()) {
                    return None;
                }
                Some(name.clone())
            },
            Mmproj::Auto => choose_listed_mmproj(&listed),
        };
        Some(HfResolved { repo: self.repo.clone(), file, mmproj, from_cache: true })
    }

    /// What an exact file resolves to where no projector has to be looked for.
    pub fn outright(&self) -> (out: Option<HfResolved>)
        ensures
            view_of(out) == named_outright(*self),
    {
        match &self.file {
            None => None,
            Some(file) => match &self.projector {
                Mmproj::Auto => None,
                Mmproj::Nothing => Some(
                    HfResolved {
                        repo: self.repo.clone(),
                        file: file.clone(),
                        mmproj: None,
                        from_cache: false,
                    },
                ),
                Mmproj::File(name) => Some(
                    HfResolved {
                        repo: self.repo.clone(),
                        file: file.clone(),
                        mmproj: Some(name.clone()),
                        from_cache: false,
                    },
                ),
            },
        }
    }

    /// Choose among what the repo lists.
    pub fn choose_from(&self, files: &[GgufFile]) -> (out: Result<HfResolved, HfError>)
        ensures
            listing_answers(*self, listing(views(files@)), out),
    {
        let listed = list_files(files);
        let file = match &self.file {
            Some(file) => {
                if !holds_file(files, file.as_str()) {
                    return Err(
                        HfError::FileNotFound { repo: self.repo.clone(), file: file.clone() },
                    );
                }
                file.clone()
            },
            None => {
                let quant: Option<&str> = match &self.quant {
                    Some(tag) => Some(tag.as_str()),
                    None => None,
                };
                match choose_listed(&listed, quant) {
                    Choice::Exact(name) => name,
                    Choice::Fallback(name) => name,
                    Choice::QuantMissing(available) => {
                        let quant = match &self.quant {
                            Some(tag) => tag.clone(),
                            None => "".to_owned(),
                        };
                        return Err(
                            HfError::QuantNotFound { repo: self.repo.clone(), quant, available },
                        );
                    },
                    Choice::NoGguf => {
                        return Err(HfError::NoGguf { repo: self.repo.clone() });
                    },
                }
            },
        };
        let mmproj = match &self.projector {
            Mmproj::Nothing => None,
            Mmproj::File(name) => Some(name.clone()),
            Mmproj::Auto => choose_listed_mmproj(&listed),
        };
        Ok(HfResolved { repo: self.repo.clone(), file, mmproj, from_cache: false })
    }

    /// What is left to do: nothing where the cache answers or the files are
    /// named, else the repo has to be listed.
    pub fn plan(&self, cached: &[GgufFile]) -> (out: Plan)
        ensures
            match out {
                Plan::Known(r) => if r.from_cache {
                    cache_answers(*self, listing(views(cached@)), Some(r@))
                } else {
                    cache_answers(*self, listing(views(cached@)), None) && named_outright(*self)
                        == Some(r@)
                },
                Plan::List => cache_answers(*self, listing(views(cached@)), None)
                    && named_outright(*self) is None,
            },
    {
        match self.resolve_from_cache(cached) {
            Some(r) => Plan::Known(r),
            None => match self.outright() {
                Some(r) => Plan::Known(r),
                None => Plan::List,
            },
        }
    }

    /// The token a download sends: the model's own, else the environment's.
    pub fn sent_token(&self, env: Option<&str>) -> (out: Option<String>)
        ensures
            view_of(out) == (match self.own_token {
                Some(token) => Some(token@),
                None => match env {
                    Some(token) if token@.len() > 0 => Some(token@),
                    _ => None,
                },
            }),
    {
        match &self.own_token {
            Some(token) => Some(token.clone()),
            None => match env {
                Some(token) => if chars_of(token).len() > 0 {
                    Some(token.to_owned())
                } else {
                    None
                },
                None => None,
            },
        }
    }
}

/// A file with the wanted tag is a file.
proof fn tagged_is_any(files: Seq<FileView>, wanted: Seq<char>)
    ensures
        inhabited(files, Tier::Tagged, wanted) ==> inhabited(files, Tier::Any, wanted),
{
    if inhabited(files, Tier::Tagged, wanted) {
        let i = choose|i: int|
            0 <= i < files.len() && crate::hf_files::belongs(
                #[trigger] files[i],
                Tier::Tagged,
                wanted,
            );
        assert(crate::hf_files::belongs(files[i], Tier::Any, wanted));
    }
}

// ── What the Hub's refusals mean ────────────────────────────────────────────

/// A failure of the Hub client, as it reports it.
#[allow(inconsistent_fields)]
#[derive(Debug, PartialEq, Eq)]
pub enum HubFault {
    /// The Hub has no such repo.
    RepoNotFound,
    /// An answer with a failing status.
    Http {
        /// The Hub's own code, from `x-error-code`.
        code: Option<String>,
        /// The status.
        status: u16,
        /// What the server said.
        message: Option<String>,
    },
    /// The Hub wants a token.
    AuthRequired,
    /// The Hub refuses the token.
    Forbidden,
    /// The Hub is rate-limiting this address.
    RateLimited {
        /// How many seconds to wait, when the Hub said.
        retry_after: Option<u64>,
    },
    /// The repo has no such file.
    EntryNotFound {
        /// The file.
        path: String,
    },
    /// The Hub could not be reached.
    Request {
        /// The transport's own words.
        message: String,
    },
    /// The disk refused.
    Io {
        /// The I/O error.
        message: String,
    },
    /// Another process is downloading.
    CacheLockTimeout {
        /// The lock.
        path: String,
    },
    /// Anything else.
    Other {
        /// The client's own words.
        message: String,
    },
}

/// What a failing status says, in words.
pub open spec fn status_words(status: u16, message: Option<Seq<char>>) -> Seq<char> {
    "HTTP "@ + decimal(status as nat) + (match message {
        Some(m) => ": "@ + m,
        None => Seq::empty(),
    })
}

/// Whether an error is what a failure of the Hub client means.
pub open spec fn means(
    model: HfModel,
    fault: HubFault,
    cache: Seq<char>,
    sent: bool,
    out: HfError,
) -> bool {
    match fault {
        HubFault::RepoNotFound => out matches HfError::RepoNotFound { repo } && repo@
            == model.repo@,
        HubFault::Http { code, status, message } => {
            let named = view_of(code);
            if named == Some("RepoNotFound"@) || (named is None && status == 404) {
                out matches HfError::RepoNotFound { repo } && repo@ == model.repo@
            } else if named == Some("GatedRepo"@) || status == 401 || status == 403 {
                out matches HfError::Gated { repo, had_token } && repo@ == model.repo@ && had_token
                    == sent
            } else if status == 429 {
                out matches HfError::RateLimited { retry_after } && retry_after is None
            } else {
                out matches HfError::Other { repo, message: m } && repo@ == model.repo@ && m@
                    == status_words(status, view_of(message))
            }
        },
        HubFault::AuthRequired | HubFault::Forbidden => out matches HfError::Gated {
            repo,
            had_token,
        } && repo@ == model.repo@ && had_token == sent,
        HubFault::RateLimited { retry_after } => out matches HfError::RateLimited {
            retry_after: wait,
        } && wait == retry_after,
        HubFault::EntryNotFound { path } => out matches HfError::FileNotFound { repo, file }
            && repo@ == model.repo@ && file@ == path@,
        HubFault::Request { message } => out matches HfError::Network {
            repo,
            message: m,
            cache_dir,
        } && repo@ == model.repo@ && m@ == message@ && cache_dir@ == cache,
        HubFault::Io { message } => out matches HfError::Cache { path, message: m } && path@
            == cache && m@ == message@,
        HubFault::CacheLockTimeout { path } => out matches HfError::Cache {
            path: p,
            message: m,
        } && p@ == path@ && m@ == "another process holds the download lock"@,
        HubFault::Other { message } => out matches HfError::Other { repo, message: m } && repo@
            == model.repo@ && m@ == message@,
    }
}

fn same_code(code: &Option<String>, text: &str) -> (out: bool)
    ensures
        out == (view_of(*code) == Some(text@)),
{
    match code {
        Some(code) => same_text(code.as_str(), text),
        None => false,
    }
}

impl HfModel {
    /// What a failure of the Hub client means for this model. `sent` says
    /// whether a token went out with the request.
    ///
    /// The listing endpoint's failures come back with the Hub's own code in a
    /// header and the status; both are read the way downloads read them.
    pub fn map_error(&self, fault: HubFault, cache: &str, sent: bool) -> (out: HfError)
        ensures
            means(*self, fault, cache@, sent, out),
    {
        let repo = self.repo.clone();
        match fault {
            HubFault::RepoNotFound => HfError::RepoNotFound { repo },
            HubFault::Http { code, status, message } => {
                if same_code(&code, "RepoNotFound") || (code.is_none() && status == 404) {
                    HfError::RepoNotFound { repo }
                } else if same_code(&code, "GatedRepo") || status == 401 || status == 403 {
                    HfError::Gated { repo, had_token: sent }
                } else if status == 429 {
                    HfError::RateLimited { retry_after: None }
                } else {
                    let mut words = "HTTP ".to_owned();
                    push_decimal(&mut words, status as u64);
                    match &message {
                        Some(m) => {
                            words.append(": ");
                            words.append(m.as_str());
                        },
                        None => {},
                    }
                    assert(words@ =~= status_words(status, view_of(message)));
                    HfError::Other { repo, message: words }
                }
            },
            HubFault::AuthRequired => HfError::Gated { repo, had_token: sent },
            HubFault::Forbidden => HfError::Gated { repo, had_token: sent },
            HubFault::RateLimited { retry_after } => HfError::RateLimited { retry_after },
            HubFault::EntryNotFound { path } => HfError::FileNotFound { repo, file: path },
            HubFault::Request { message } => HfError::Network {
                repo,
                message,
                cache_dir: cache.to_owned(),
            },
            HubFault::Io { message } => HfError::Cache { path: cache.to_owned(), message },
            HubFault::CacheLockTimeout { path } => HfError::Cache {
                path,
                message: "another process holds the download lock".to_owned(),
            },
            HubFault::Other { message } => HfError::Other { repo, message },
        }
    }
}

// ── Where the rest of the library asks ──────────────────────────────────────

/// The reference in a model path, when it is one.
pub fn reference_from_path(path: &str) -> (out: Option<&str>)
    ensures
        match out {
            Some(r) => refers(path@) && r@ == path@,
            None => !refers(path@),
        },
{
    if is_reference(path) {
        Some(path)
    } else {
        None
    }
}

/// The model a path refers to, `None` where it is a plain path. A malformed
/// reference fails here, before any I/O.
pub fn resolve_model_path(path: &str) -> (out: Result<Option<HfModel>, Error>)
    ensures
        if !refers(path@) {
            out matches Ok(None)
        } else {
            match parsed(path@) {
                Ok(r) => out matches Ok(Some(m)) && m.refers_to() == r && m.projector
                    == Mmproj::Auto && m.cache is None && m.own_token is None,
                Err(reason) => out matches Err(Error::Load(words)) && words@
                    == crate::hf::invalid_words(path@, reason),
            }
        },
{
    match reference_from_path(path) {
        None => Ok(None),
        Some(reference) => match HfModel::parse(reference) {
            Ok(model) => Ok(Some(model)),
            Err(e) => Err(e.into_error()),
        },
    }
}

/// The cache answers only with the exact file or with a file that carries the
/// tag asked for, never with a second best.
pub proof fn the_cache_never_answers_with_a_fallback(
    model: HfModel,
    files: Seq<FileView>,
    r: ResolvedView,
)
    requires
        cache_answers(model, files, Some(r)),
    ensures
        match model.file {
            Some(file) => r.file == file@,
            None => chosen(files, view_of(model.quant), ChoiceView::Exact(r.file)),
        },
{
    tagged_is_any(files, wanted_tag(view_of(model.quant)));
}

// ── Laws ────────────────────────────────────────────────────────────────────

/// A path below a directory begins with the directory, ends with the part,
/// and has one slash between them where both are there.
pub proof fn a_path_below_a_directory(dir: Seq<char>, part: Seq<char>)
    ensures
        dir.len() == 0 ==> joined(dir, part) == part,
        dir.len() > 0 && dir.last() != '/' ==> joined(dir, part) == dir.push('/') + part,
        dir.len() > 0 && dir.last() == '/' ==> joined(dir, part) == dir + part,
{
    reveal_strlit("/");
    assert(dir + "/"@ + part =~= dir.push('/') + part);
}

/// Where models are kept: the library's own setting comes first, the Hub's
/// two settings next, the Hub's home after them, and the machine's own cache
/// last.
pub proof fn which_setting_counts(env: CacheEnv, platform: Option<Seq<char>>, temp: Seq<char>)
    ensures
        env.models_dir matches Some(dir) ==> models_dir(env, platform, temp) == dir@,
        env.models_dir is None ==> (env.hub_cache matches Some(dir) ==> models_dir(
            env,
            platform,
            temp,
        ) == dir@),
        env.models_dir is None && env.hub_cache is None ==> (env.old_hub_cache matches Some(dir)
            ==> models_dir(env, platform, temp) == dir@),
        env.models_dir is None && env.hub_cache is None && env.old_hub_cache is None ==> (
        env.home matches Some(home) ==> models_dir(env, platform, temp) == joined(
            home@,
            "hub"@,
        )),
        env.models_dir is None && env.hub_cache is None && env.old_hub_cache is None
            && env.home is None ==> models_dir(env, platform, temp) == (match platform {
            Some(dir) => joined(joined(dir, "gen2"@), "hf"@),
            None => joined(joined(temp, "gen2"@), "hf"@),
        }),
{
}

/// A repo's directory spells each slash as two dashes and all else as it is.
pub proof fn a_slash_is_spelled_as_dashes(a: Seq<char>, b: Seq<char>)
    ensures
        (forall|i: int| 0 <= i < a.len() ==> #[trigger] a[i] != '/') ==> dashes(a) == a,
        dashes(seq!['/']) == "--"@,
        dashes(a + b) == dashes(a) + dashes(b),
    decreases a.len() + b.len(),
{
    assert(seq!['/'].drop_last() =~= Seq::<char>::empty());
    assert(dashes(Seq::empty()) + "--"@ =~= "--"@);
    if a.len() > 0 && b.len() == 0 {
        let init = a.drop_last();
        a_slash_is_spelled_as_dashes(init, Seq::empty());
        if forall|i: int| 0 <= i < a.len() ==> #[trigger] a[i] != '/' {
            assert forall|i: int| 0 <= i < init.len() implies #[trigger] init[i] != '/' by {
                assert(init[i] == a[i]);
            }
            assert(a[a.len() - 1] != '/');
            assert(init.push(a.last()) =~= a);
        }
    }
    if b.len() == 0 {
        assert(a + b =~= a);
        assert(dashes(a) + dashes(b) =~= dashes(a));
    } else {
        a_slash_is_spelled_as_dashes(a, b.drop_last());
        assert((a + b).drop_last() =~= a + b.drop_last());
        assert(dashes(a + b) =~= dashes(a) + dashes(b));
    }
}

/// What the cache or a listing answers with is there: the file is one of the
/// files, and so is the projector, unless none was asked for.
pub proof fn an_answer_is_among_the_files(
    model: HfModel,
    files: Seq<FileView>,
    r: ResolvedView,
)
    requires
        cache_answers(model, files, Some(r)),
    ensures
        exists|i: int| 0 <= i < files.len() && (#[trigger] files[i]).name == r.file,
        r.mmproj matches Some(name) ==> exists|i: int|
            0 <= i < files.len() && (#[trigger] files[i]).name == name,
        r.from_cache,
        r.repo == model.repo@,
        model.file matches Some(file) ==> r.file == file@,
        model.projector == Mmproj::Nothing ==> r.mmproj is None,
        model.projector matches Mmproj::File(name) ==> r.mmproj == Some(name@),
{
    if model.file is None {
        let wanted = wanted_tag(view_of(model.quant));
        let i = choose|i: int|
            0 <= i < files.len() && crate::hf_files::belongs(
                #[trigger] files[i],
                Tier::Tagged,
                wanted,
            ) && files[i].name == r.file;
        assert(files[i].name == r.file);
    }
    if model.projector == Mmproj::Auto {
        crate::hf_files::a_half_precision_projector_comes_first(files, r.mmproj);
    }
}

/// The cache answers wherever it holds the very file, or one that carries the
/// tag, and needs no projector it lacks.
pub proof fn the_cache_answers_where_it_can(
    model: HfModel,
    files: Seq<FileView>,
    answer: Option<ResolvedView>,
)
    requires
        cache_answers(model, files, answer),
        model.file matches Some(file) ==> has_file(files, file@),
        model.file is None ==> exists|i: int|
            0 <= i < files.len() && (#[trigger] files[i]).candidate() && files[i].has_tag(
                wanted_tag(view_of(model.quant)),
            ),
        model.projector matches Mmproj::File(name) ==> has_file(files, name@),
    ensures
        answer is Some,
{
    if model.file is None {
        let wanted = wanted_tag(view_of(model.quant));
        let i = choose|i: int|
            0 <= i < files.len() && (#[trigger] files[i]).candidate() && files[i].has_tag(wanted);
        assert(crate::hf_files::belongs(files[i], Tier::Tagged, wanted));
        assert(inhabited(files, Tier::Tagged, wanted));
    }
}

/// What the Hub's refusals mean: a repo that is not there, one that needs a
/// token, and too many requests are told apart by the status where the Hub
/// gives no code of its own.
pub proof fn what_a_status_means(
    model: HfModel,
    status: u16,
    message: Option<String>,
    cache: Seq<char>,
    sent: bool,
    out: HfError,
)
    requires
        means(model, HubFault::Http { code: None, status, message }, cache, sent, out),
    ensures
        out is RepoNotFound <==> status == 404,
        out is Gated <==> status == 401 || status == 403,
        out is RateLimited <==> status == 429,
        out is Other <==> status != 404 && status != 401 && status != 403 && status != 429,
        out matches HfError::Gated { repo, had_token } ==> had_token == sent,
{
}

/// A download that cannot be reached says where it would have been kept, and
/// a file that is not there says which.
pub proof fn what_a_failed_download_tells(
    model: HfModel,
    fault: HubFault,
    cache: Seq<char>,
    sent: bool,
    out: HfError,
)
    requires
        means(model, fault, cache, sent, out),
    ensures
        fault matches HubFault::Request { message } ==> (out matches HfError::Network {
            repo,
            message: told,
            cache_dir,
        } && told@ == message@ && cache_dir@ == cache && repo@ == model.repo@),
        fault matches HubFault::EntryNotFound { path } ==> (out matches HfError::FileNotFound {
            repo,
            file,
        } && file@ == path@ && repo@ == model.repo@),
        fault matches HubFault::RateLimited { retry_after } ==> (out matches HfError::RateLimited {
            retry_after: wait,
        } && wait == retry_after),
        fault is RepoNotFound ==> out is RepoNotFound,
        fault is AuthRequired || fault is Forbidden ==> (out matches HfError::Gated {
            repo,
            had_token,
        } && had_token == sent),
{
}

/// A reference that names its file, and its projector or none, is resolved
/// without a look at the repo; any other is not.
pub proof fn what_is_named_needs_no_listing(model: HfModel)
    ensures
        model.file is None || model.projector == Mmproj::Auto ==> named_outright(model) is None,
        model.file matches Some(file) ==> (model.projector != Mmproj::Auto ==> {
            &&& named_outright(model) matches Some(r)
            &&& r.repo == model.repo@
            &&& r.file == file@
            &&& !r.from_cache
            &&& model.projector == Mmproj::Nothing ==> r.mmproj is None
            &&& model.projector matches Mmproj::File(name) ==> r.mmproj == Some(name@)
        }),
{
}

/// A listing that lacks the file a reference names is told so, by that name;
/// one that holds it, or any model file where no file and no tag is named,
/// gives an answer.
pub proof fn what_a_listing_comes_to(
    model: HfModel,
    files: Seq<FileView>,
    out: Result<HfResolved, HfError>,
)
    requires
        listing_answers(model, files, out),
    ensures
        model.file matches Some(file) ==> (out is Ok <==> exists|i: int|
            0 <= i < files.len() && (#[trigger] files[i]).name == file@),
        model.file matches Some(file) ==> (out matches Ok(r) ==> r.file@ == file@),
        model.file matches Some(file) ==> (out is Err ==> (out->Err_0 matches HfError::FileNotFound {
            repo,
            file: missing,
        } && missing@ == file@ && repo@ == model.repo@)),
        model.file is None && model.quant is None ==> (out is Ok <==> exists|i: int|
            0 <= i < files.len() && (#[trigger] files[i]).candidate()),
        out matches Ok(r) ==> !r.from_cache && r.repo@ == model.repo@,
{
    let quant = view_of(model.quant);
    if model.file is None && model.quant is None {
        match out {
            Ok(r) => {
                let exact = ChoiceView::Exact(r.file@);
                let second = ChoiceView::Fallback(r.file@);
                if chosen(files, quant, exact) {
                    crate::hf_files::a_fallback_is_the_smallest_there_is(files, quant, exact);
                } else {
                    crate::hf_files::a_fallback_is_the_smallest_there_is(files, quant, second);
                }
            },
            Err(HfError::NoGguf { repo }) => {
                crate::hf_files::a_fallback_is_the_smallest_there_is(
                    files,
                    quant,
                    ChoiceView::NoGguf,
                );
            },
            Err(_) => {},
        }
    }
}

} // verus!
