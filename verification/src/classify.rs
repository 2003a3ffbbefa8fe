//! Picking one of a fixed set of labels.
//!
//! The label set is enforced by grammar-constrained decoding, so the model
//! cannot produce prose that has to be salvaged afterwards. And what comes
//! back is checked against the caller's own list before it is handed on — a
//! backend with no grammar support would otherwise let arbitrary text
//! through.
use vstd::prelude::*;
use vstd::string::*;
use crate::error::Error;
use crate::generation::{GrammarSpec, GrammarView};
use crate::inference::Request;
use crate::json::{lenient, quoted, string_in, text_of_json, Json};
use crate::seqs::{group_views, view_of, views};
use crate::stream::{debug_of, debug_text};
use crate::text::{
    chars_of, decimal, join_texts, joined, lower, lower_chars, push_decimal, same_chars, same_text,
    string_of, trim, trimmed,
};

verus! {

broadcast use group_views;

/// Room for the longest label plus JSON quoting, with slack for a tokenizer
/// that splits it more finely than expected.
pub const TOKENS_PER_LABEL_CHAR: usize = 2;

/// The least room a label is given.
pub const MIN_TOKEN_BUDGET: usize = 16;

/// A text in lower case, by Unicode's rules.
pub uninterp spec fn lower_case(text: Seq<char>) -> Seq<char>;

/// `str::to_lowercase`.
///
/// Claimed: the outcome depends on the text alone.
#[verifier::external_body]
fn to_lower_case(text: &str) -> (out: String)
    ensures
        out@ == lower_case(text@),
{
    text.to_lowercase()
}

// ── Labels ──────────────────────────────────────────────────────────────────

/// Labels without the white space at their ends.
pub open spec fn cleaned(labels: Seq<Seq<char>>) -> Seq<Seq<char>> {
    labels.map_values(|label: Seq<char>| trimmed(label))
}

/// Whether two labels read alike, case aside.
pub open spec fn clash(labels: Seq<Seq<char>>) -> bool {
    exists|i: int, j: int|
        #![trigger labels[i], labels[j]]
        0 <= i < j < labels.len() && lower_case(labels[i]) == lower_case(labels[j])
}

/// Texts as Rust's `Debug` lists them.
pub open spec fn debug_list(texts: Seq<Seq<char>>) -> Seq<char> {
    "["@ + joined(texts.map_values(|t: Seq<char>| debug_of(t)), ", "@) + "]"@
}

/// What is wrong with a label set, if anything.
pub open spec fn label_fault(labels: Seq<Seq<char>>) -> Option<Seq<char>> {
    let clean = cleaned(labels);
    if exists|i: int| 0 <= i < clean.len() && (#[trigger] clean[i]).len() == 0 {
        Some("a classification label is empty; every label has to name something"@)
    } else if clean.len() < 2 {
        Some(
            "classification needs at least two labels to choose between, got "@ + decimal(
                clean.len(),
            ),
        )
    } else if clash(clean) {
        Some("classification labels must be distinct, got "@ + debug_list(clean))
    } else {
        None
    }
}

fn listed(texts: &Vec<String>) -> (out: String)
    ensures
        out@ == debug_list(views(texts@)),
{
    let ghost all = views(texts@).map_values(|t: Seq<char>| debug_of(t));
    let mut shown: Vec<String> = Vec::new();
    let mut i: usize = 0;
    while i < texts.len()
        invariant
            i <= texts.len(),
            all == views(texts@).map_values(|t: Seq<char>| debug_of(t)),
            shown.len() == i,
            forall|k: int| 0 <= k < i ==> (#[trigger] shown@[k])@ == all[k],
        decreases texts.len() - i,
    {
        shown.push(debug_text(texts[i].as_str()));
        i += 1;
    }
    assert(views(shown@) =~= all);
    "[".to_owned().concat(join_texts(&shown, ", ").as_str()).concat("]")
}

fn without_padding(labels: &Vec<String>) -> (out: Vec<String>)
    ensures
        views(out@) == cleaned(views(labels@)),
{
    let mut out: Vec<String> = Vec::new();
    let mut i: usize = 0;
    while i < labels.len()
        invariant
            i <= labels.len(),
            out.len() == i,
            forall|k: int| 0 <= k < i ==> (#[trigger] out@[k])@ == trimmed(labels@[k]@),
        decreases labels.len() - i,
    {
        let clean = trim(chars_of(labels[i].as_str()).as_slice());
        out.push(string_of(clean.as_slice()));
        i += 1;
    }
    assert(views(out@) =~= cleaned(views(labels@)));
    out
}

fn any_empty(labels: &Vec<String>) -> (out: bool)
    ensures
        out == (exists|i: int|
            0 <= i < views(labels@).len() && (#[trigger] views(labels@)[i]).len() == 0),
{
    let ghost all = views(labels@);
    let mut i: usize = 0;
    while i < labels.len()
        invariant
            i <= labels.len(),
            all == views(labels@),
            forall|k: int| 0 <= k < i ==> (#[trigger] all[k]).len() > 0,
        decreases labels.len() - i,
    {
        assert(all[i as int] == labels@[i as int]@);
        if chars_of(labels[i].as_str()).len() == 0 {
            return true;
        }
        i += 1;
    }
    false
}

/// Whether a text stands twice among others.
pub fn repeats(texts: &Vec<String>) -> (out: bool)
    ensures
        out == (exists|i: int, j: int|
            #![trigger texts@[i], texts@[j]]
            0 <= i < j < texts.len() && texts@[i]@ == texts@[j]@),
{
    let mut i: usize = 0;
    while i < texts.len()
        invariant
            i <= texts.len(),
            forall|a: int, b: int|
                #![trigger texts@[a], texts@[b]]
                0 <= a < b < i ==> texts@[a]@ != texts@[b]@,
        decreases texts.len() - i,
    {
        let mut j: usize = 0;
        while j < i
            invariant
                j <= i < texts.len(),
                forall|k: int| 0 <= k < j ==> (#[trigger] texts@[k])@ != texts@[i as int]@,
            decreases i - j,
        {
            if same_text(texts[j].as_str(), texts[i].as_str()) {
                return true;
            }
            j += 1;
        }
        i += 1;
    }
    false
}

fn any_clash(labels: &Vec<String>) -> (out: bool)
    ensures
        out == clash(views(labels@)),
{
    let ghost all = views(labels@);
    let mut low: Vec<String> = Vec::new();
    let mut i: usize = 0;
    while i < labels.len()
        invariant
            i <= labels.len(),
            all == views(labels@),
            low.len() == i,
            forall|k: int| 0 <= k < i ==> (#[trigger] low@[k])@ == lower_case(all[k]),
        decreases labels.len() - i,
    {
        low.push(to_lower_case(labels[i].as_str()));
        i += 1;
    }
    proof {
        if clash(all) {
            let (a, b) = choose|a: int, b: int|
                #![trigger all[a], all[b]]
                0 <= a < b < all.len() && lower_case(all[a]) == lower_case(all[b]);
            assert(low@[a]@ == low@[b]@);
        }
    }
    repeats(&low)
}

/// Check the label set before anything is generated.
///
/// Labels are distinct case aside, because two labels a model cannot tell
/// apart are not two labels.
pub fn validate(labels: &Vec<String>) -> (out: Result<Vec<String>, Error>)
    ensures
        match label_fault(views(labels@)) {
            None => out matches Ok(clean) && views(clean@) == cleaned(views(labels@)),
            Some(fault) => out matches Err(Error::InvalidRequest(words)) && words@ == fault,
        },
{
    let clean = without_padding(labels);
    assert(views(clean@).len() == clean.len());
    if any_empty(&clean) {
        return Err(
            Error::InvalidRequest(
                "a classification label is empty; every label has to name something".to_owned(),
            ),
        );
    }
    if clean.len() < 2 {
        let mut words = "classification needs at least two labels to choose between, got ".to_owned();
        push_decimal(&mut words, clean.len() as u64);
        return Err(Error::InvalidRequest(words));
    }
    if any_clash(&clean) {
        return Err(
            Error::InvalidRequest(
                "classification labels must be distinct, got ".to_owned().concat(
                    listed(&clean).as_str(),
                ),
            ),
        );
    }
    Ok(clean)
}

// ── The answer ──────────────────────────────────────────────────────────────

/// What a reply says: the text a JSON string holds, where it is one, else the
/// reply, without the white space at its ends.
pub open spec fn said(reply: Seq<char>, decoded: Option<Seq<char>>) -> Seq<char> {
    trimmed(
        match decoded {
            Some(text) => text,
            None => reply,
        },
    )
}

/// Whether a label is what was said: exactly, or, where it need not be, case
/// aside.
pub open spec fn named(label: Seq<char>, words: Seq<char>, exactly: bool) -> bool {
    if exactly {
        trimmed(label) == words
    } else {
        lower(trimmed(label)) == lower(words)
    }
}

/// The first label that is what was said.
pub open spec fn first_named(
    labels: Seq<Seq<char>>,
    words: Seq<char>,
    exactly: bool,
) -> Option<int>
    decreases labels.len(),
{
    if labels.len() == 0 {
        None
    } else {
        match first_named(labels.drop_last(), words, exactly) {
            Some(i) => Some(i),
            None => if named(labels.last(), words, exactly) {
                Some(labels.len() - 1)
            } else {
                None
            },
        }
    }
}

/// The label that was chosen, if any: the first that is exactly what was
/// said, else the first that is, case aside.
pub open spec fn picked(labels: Seq<Seq<char>>, words: Seq<char>) -> Option<Seq<char>> {
    match first_named(labels, words, true) {
        Some(i) => Some(labels[i]),
        None => match first_named(labels, words, false) {
            Some(i) => Some(labels[i]),
            None => None,
        },
    }
}

proof fn first_named_is_one(labels: Seq<Seq<char>>, words: Seq<char>, exactly: bool)
    ensures
        first_named(labels, words, exactly) matches Some(i) ==> 0 <= i < labels.len() && named(
            labels[i],
            words,
            exactly,
        ),
    decreases labels.len(),
{
    if labels.len() > 0 {
        first_named_is_one(labels.drop_last(), words, exactly);
    }
}

fn find_named(labels: &Vec<String>, words: &Vec<char>, exactly: bool) -> (out: Option<usize>)
    ensures
        match out {
            Some(i) => i < labels.len() && first_named(views(labels@), words@, exactly) == Some(
                i as int,
            ),
            None => first_named(views(labels@), words@, exactly) is None,
        },
{
    let ghost all = views(labels@);
    let low = lower_chars(words.as_slice());
    let mut found: Option<usize> = None;
    let mut i: usize = 0;
    assert(all.take(0) =~= Seq::empty());
    while i < labels.len()
        invariant
            i <= labels.len(),
            all == views(labels@),
            low@ == lower(words@),
            match found {
                Some(k) => k < i && first_named(all.take(i as int), words@, exactly) == Some(
                    k as int,
                ),
                None => first_named(all.take(i as int), words@, exactly) is None,
            },
        decreases labels.len() - i,
    {
        assert(all.take(i + 1).drop_last() =~= all.take(i as int));
        assert(all.take(i + 1).last() == labels@[i as int]@);
        if found.is_none() {
            let label = trim(chars_of(labels[i].as_str()).as_slice());
            let same = if exactly {
                same_chars(label.as_slice(), words.as_slice())
            } else {
                same_chars(lower_chars(label.as_slice()).as_slice(), low.as_slice())
            };
            if same {
                found = Some(i);
            }
        }
        i += 1;
    }
    assert(all.take(labels.len() as int) =~= all);
    found
}

/// Which label a reply chose, given the text it holds as a JSON string, where
/// it is one.
pub fn pick_said(reply: &str, decoded: Option<String>, labels: &Vec<String>) -> (out: Option<
    String,
>)
    ensures
        view_of(out) == picked(views(labels@), said(reply@, view_of(decoded))),
{
    let words = match &decoded {
        Some(text) => trim(chars_of(text.as_str()).as_slice()),
        None => trim(chars_of(reply).as_slice()),
    };
    match find_named(labels, &words, true) {
        Some(i) => Some(labels[i].clone()),
        None => match find_named(labels, &words, false) {
            Some(i) => Some(labels[i].clone()),
            None => None,
        },
    }
}

/// Which label the model chose, if any.
///
/// The grammar makes the reply a JSON string, so that is tried first. The
/// looser matches after it are for backends that do not enforce grammars:
/// they still only ever return a label the caller supplied.
pub fn pick(reply: &str, labels: &Vec<String>) -> (out: Option<String>)
    ensures
        view_of(out) == picked(views(labels@), said(reply@, string_in(trimmed(reply@)))),
{
    let inner = string_of(trim(chars_of(reply).as_slice()).as_slice());
    pick_said(reply, text_of_json(inner.as_str()), labels)
}

// ── The request ─────────────────────────────────────────────────────────────

/// A schema whose values are some texts and nothing else.
pub open spec fn choice_schema(texts: Seq<Seq<char>>) -> Seq<char> {
    lenient(
        "{\"type\":\"string\",\"enum\":["@ + joined(
            texts.map_values(|t: Seq<char>| quoted(t)),
            ","@,
        ) + "]}"@,
    )
}

/// The length of the longest of some texts.
pub open spec fn longest(texts: Seq<Seq<char>>) -> nat
    decreases texts.len(),
{
    if texts.len() == 0 {
        0
    } else if texts.last().len() > longest(texts.drop_last()) {
        texts.last().len()
    } else {
        longest(texts.drop_last())
    }
}

/// The tokens a label is given room for.
pub open spec fn token_budget(labels: Seq<Seq<char>>) -> nat {
    let room = longest(labels) * TOKENS_PER_LABEL_CHAR as nat;
    if room < MIN_TOKEN_BUDGET {
        MIN_TOKEN_BUDGET as nat
    } else if room > usize::MAX {
        usize::MAX as nat
    } else {
        room
    }
}

/// What the model is told, where the caller says nothing.
pub open spec fn choose_words(labels: Seq<Seq<char>>) -> Seq<char> {
    "Classify the text into exactly one of these categories: "@ + joined(labels, ", "@)
        + ".\nReply with the category and nothing else."@
}

fn schema_of(texts: &Vec<String>) -> (out: Json)
    ensures
        out@ == choice_schema(views(texts@)),
{
    let ghost all = views(texts@).map_values(|t: Seq<char>| quoted(t));
    let mut shown: Vec<String> = Vec::new();
    let mut i: usize = 0;
    while i < texts.len()
        invariant
            i <= texts.len(),
            all == views(texts@).map_values(|t: Seq<char>| quoted(t)),
            shown.len() == i,
            forall|k: int| 0 <= k < i ==> (#[trigger] shown@[k])@ == all[k],
        decreases texts.len() - i,
    {
        shown.push(Json::string(texts[i].as_str()).as_str().to_owned());
        i += 1;
    }
    assert(views(shown@) =~= all);
    let text = "{\"type\":\"string\",\"enum\":[".to_owned().concat(
        join_texts(&shown, ",").as_str(),
    ).concat("]}");
    Json::lenient(text.as_str())
}

fn words_for(labels: &Vec<String>) -> (out: String)
    ensures
        out@ == choose_words(views(labels@)),
{
    "Classify the text into exactly one of these categories: ".to_owned().concat(
        join_texts(labels, ", ").as_str(),
    ).concat(".\nReply with the category and nothing else.")
}

fn budget_for(labels: &Vec<String>) -> (out: usize)
    ensures
        out == token_budget(views(labels@)),
{
    let ghost all = views(labels@);
    let mut most: usize = 0;
    let mut i: usize = 0;
    assert(all.take(0) =~= Seq::empty());
    while i < labels.len()
        invariant
            i <= labels.len(),
            all == views(labels@),
            most == longest(all.take(i as int)),
        decreases labels.len() - i,
    {
        assert(all.take(i + 1).drop_last() =~= all.take(i as int));
        assert(all.take(i + 1).last() == labels@[i as int]@);
        let chars = chars_of(labels[i].as_str());
        if chars.len() > most {
            most = chars.len();
        }
        i += 1;
    }
    assert(all.take(labels.len() as int) =~= all);
    let room: usize = match most.checked_mul(TOKENS_PER_LABEL_CHAR) {
        Some(room) => room,
        None => usize::MAX,
    };
    if room < MIN_TOKEN_BUDGET {
        MIN_TOKEN_BUDGET
    } else {
        room
    }
}

/// One prompt, one label out of a set the caller fixes.
#[derive(Debug, PartialEq, Eq)]
pub struct Classify {
    text: String,
    labels: Vec<String>,
    instructions: Option<String>,
    sampled: bool,
}

/// A classification, mathematically.
#[verifier::ext_equal]
pub struct ClassifyView {
    pub text: Seq<char>,
    pub labels: Seq<Seq<char>>,
    pub instructions: Option<Seq<char>>,
    pub sampled: bool,
}

impl View for Classify {
    type V = ClassifyView;

    closed spec fn view(&self) -> ClassifyView {
        ClassifyView {
            text: self.text@,
            labels: views(self.labels@),
            instructions: view_of(self.instructions),
            sampled: self.sampled,
        }
    }
}

impl Classify {
    /// A classification of some text.
    pub fn new(text: &str) -> (out: Self)
        ensures
            out@ == (ClassifyView {
                text: text@,
                labels: Seq::empty(),
                instructions: None,
                sampled: false,
            }),
    {
        let out = Classify {
            text: text.to_owned(),
            labels: Vec::new(),
            instructions: None,
            sampled: false,
        };
        assert(out@.labels =~= Seq::empty());
        out
    }

    /// The labels to choose between. Required.
    ///
    /// Calling this twice replaces the set rather than adding to it, because
    /// a classifier's label set is one decision, not an accumulation.
    pub fn labels(self, labels: Vec<String>) -> (out: Self)
        ensures
            out@ == (ClassifyView { labels: views(labels@), ..self@ }),
    {
        let mut out = self;
        out.labels = labels;
        out
    }

    /// Replace the instruction the model is given.
    pub fn instructions(self, text: &str) -> (out: Self)
        ensures
            out@ == (ClassifyView { instructions: Some(text@), ..self@ }),
    {
        let mut out = self;
        out.instructions = Some(text.to_owned());
        out
    }

    /// Sample instead of deciding. Classification is deterministic by
    /// default.
    pub fn sampled(self) -> (out: Self)
        ensures
            out@ == (ClassifyView { sampled: true, ..self@ }),
    {
        let mut out = self;
        out.sampled = true;
        out
    }

    /// What is run, or what is wrong with the label set. A request that
    /// cannot succeed must not cost a generation.
    pub fn request(&self) -> (out: Result<Request, Error>)
        ensures
            match label_fault(self@.labels) {
                Some(fault) => out matches Err(Error::InvalidRequest(words)) && words@ == fault,
                None => {
                    &&& out matches Ok(request)
                    &&& request.text@ == self@.text
                    &&& request.system@ == (match self@.instructions {
                        Some(text) => text,
                        None => choose_words(cleaned(self@.labels)),
                    })
                    &&& request.grammar@ == GrammarView::JsonSchema(
                        choice_schema(cleaned(self@.labels)),
                    )
                    &&& request.max_tokens == token_budget(self@.labels)
                    &&& request.greedy == !self@.sampled
                },
            },
    {
        match validate(&self.labels) {
            Err(e) => Err(e),
            Ok(labels) => {
                let system = match &self.instructions {
                    Some(text) => text.clone(),
                    None => words_for(&labels),
                };
                Ok(
                    Request {
                        text: self.text.clone(),
                        system,
                        grammar: GrammarSpec::JsonSchema(schema_of(&labels)),
                        max_tokens: budget_for(&self.labels),
                        greedy: !self.sampled,
                    },
                )
            },
        }
    }

    /// The label a reply chose. Checked rather than trusted: a backend that
    /// does not enforce grammars would otherwise return arbitrary prose.
    pub fn label(&self, reply: String) -> (out: Result<String, Error>)
        ensures
            match picked(self@.labels, said(reply@, string_in(trimmed(reply@)))) {
                Some(label) => out matches Ok(l) && l@ == label,
                None => out matches Err(Error::Extraction { wanted, message, raw }) && wanted@
                    == "a label"@ && message@
                    == "the model answered with something outside the label set "@ + debug_list(
                    self@.labels,
                ) && raw@ == reply@,
            },
    {
        match pick(reply.as_str(), &self.labels) {
            Some(label) => Ok(label),
            None => {
                let message = "the model answered with something outside the label set ".to_owned().concat(
                    listed(&self.labels).as_str(),
                );
                Err(Error::Extraction { wanted: "a label".to_owned(), message, raw: reply })
            },
        }
    }
}

/// A label outside the caller's set is never returned, whatever the model
/// says: what comes back is one of the labels, spelled as the caller spelled
/// it.
pub proof fn only_the_callers_labels_come_back(labels: Seq<Seq<char>>, words: Seq<char>)
    ensures
        picked(labels, words) matches Some(label) ==> labels.contains(label),
{
    first_named_is_one(labels, words, true);
    first_named_is_one(labels, words, false);
}

/// Every label can be chosen: a reply that is a label of a valid set, as it
/// is or as a JSON string, chooses it.
pub proof fn every_label_can_be_chosen(labels: Seq<Seq<char>>, i: int)
    requires
        label_fault(labels) is None,
        0 <= i < labels.len(),
    ensures
        picked(labels, trimmed(labels[i])) == Some(labels[i]),
{
    let words = trimmed(labels[i]);
    first_named_is_one(labels, words, true);
    named_is_found(labels, words, true, i);
    let k = first_named(labels, words, true)->0;
    let clean = cleaned(labels);
    if k != i {
        assert(clean[k] == clean[i]);
        assert(lower_case(clean[k]) == lower_case(clean[i]));
        if k < i {
            assert(clash(clean));
        } else {
            assert(clash(clean));
        }
    }
}

proof fn named_is_found(labels: Seq<Seq<char>>, words: Seq<char>, exactly: bool, i: int)
    requires
        0 <= i < labels.len(),
        named(labels[i], words, exactly),
    ensures
        first_named(labels, words, exactly) is Some,
    decreases labels.len(),
{
    if i < labels.len() - 1 {
        named_is_found(labels.drop_last(), words, exactly, i);
    }
}

proof fn first_named_comes_first(labels: Seq<Seq<char>>, words: Seq<char>, exactly: bool)
    ensures
        match first_named(labels, words, exactly) {
            Some(i) => {
                &&& 0 <= i < labels.len()
                &&& named(labels[i], words, exactly)
                &&& forall|j: int| 0 <= j < i ==> !named(#[trigger] labels[j], words, exactly)
            },
            None => forall|j: int|
                0 <= j < labels.len() ==> !named(#[trigger] labels[j], words, exactly),
        },
    decreases labels.len(),
{
    if labels.len() > 0 {
        let init = labels.drop_last();
        first_named_comes_first(init, words, exactly);
        match first_named(init, words, exactly) {
            Some(i) => {
                assert forall|j: int| 0 <= j < i implies !named(
                    #[trigger] labels[j],
                    words,
                    exactly,
                ) by {
                    assert(init[j] == labels[j]);
                }
            },
            None => {
                assert forall|j: int| 0 <= j < init.len() implies !named(
                    #[trigger] labels[j],
                    words,
                    exactly,
                ) by {
                    assert(init[j] == labels[j]);
                }
            },
        }
    }
}

/// A reply chooses the first label it spells exactly; failing that, the first
/// it spells in other capitals; failing that, none.
pub proof fn a_reply_chooses_what_it_spells(labels: Seq<Seq<char>>, words: Seq<char>)
    ensures
        match picked(labels, words) {
            Some(label) => exists|i: int|
                {
                    &&& 0 <= i < labels.len()
                    &&& label == #[trigger] labels[i]
                    &&& trimmed(labels[i]) == words ==> forall|j: int|
                        0 <= j < i ==> trimmed(#[trigger] labels[j]) != words
                    &&& trimmed(labels[i]) != words ==> {
                        &&& lower(trimmed(labels[i])) == lower(words)
                        &&& forall|j: int|
                            0 <= j < labels.len() ==> trimmed(#[trigger] labels[j]) != words
                        &&& forall|j: int|
                            0 <= j < i ==> lower(trimmed(#[trigger] labels[j])) != lower(words)
                    }
                },
            None => forall|j: int|
                0 <= j < labels.len() ==> lower(trimmed(#[trigger] labels[j])) != lower(words),
        },
{
    first_named_comes_first(labels, words, true);
    first_named_comes_first(labels, words, false);
    match first_named(labels, words, true) {
        Some(i) => {
            assert(labels[i] == picked(labels, words)->0);
            assert forall|j: int| 0 <= j < i implies trimmed(#[trigger] labels[j]) != words by {
                assert(!named(labels[j], words, true));
            }
        },
        None => {
            assert forall|j: int| 0 <= j < labels.len() implies trimmed(#[trigger] labels[j])
                != words by {
                assert(!named(labels[j], words, true));
            }
            match first_named(labels, words, false) {
                Some(i) => {
                    assert(named(labels[i], words, false));
                    assert(trimmed(labels[i]) != words);
                    assert forall|j: int| 0 <= j < i implies lower(trimmed(#[trigger] labels[j]))
                        != lower(words) by {
                        assert(!named(labels[j], words, false));
                    }
                },
                None => {
                    assert forall|j: int| 0 <= j < labels.len() implies lower(
                        trimmed(#[trigger] labels[j]),
                    ) != lower(words) by {
                        assert(!named(labels[j], words, false));
                    }
                },
            }
        },
    }
}

/// A label set is sound exactly where there are two labels or more, each
/// names something, and no two read alike, case aside.
pub proof fn when_a_label_set_is_sound(labels: Seq<Seq<char>>)
    ensures
        label_fault(labels) is None <==> {
            &&& labels.len() >= 2
            &&& forall|i: int|
                0 <= i < labels.len() ==> (#[trigger] trimmed(labels[i])).len() > 0
            &&& forall|i: int, j: int|
                0 <= i < j < labels.len() ==> lower_case(#[trigger] trimmed(labels[i]))
                    != lower_case(#[trigger] trimmed(labels[j]))
        },
{
    let clean = cleaned(labels);
    if label_fault(labels) is None {
        assert forall|i: int| 0 <= i < labels.len() implies (#[trigger] trimmed(labels[i])).len()
            > 0 by {
            assert(clean[i] == trimmed(labels[i]));
        }
        assert forall|i: int, j: int| 0 <= i < j < labels.len() implies lower_case(
            #[trigger] trimmed(labels[i]),
        ) != lower_case(#[trigger] trimmed(labels[j])) by {
            assert(clean[i] == trimmed(labels[i]));
            assert(clean[j] == trimmed(labels[j]));
        }
    }
    if labels.len() >= 2 && (forall|i: int|
        0 <= i < labels.len() ==> (#[trigger] trimmed(labels[i])).len() > 0) && (forall|
        i: int,
        j: int,
    |
        0 <= i < j < labels.len() ==> lower_case(#[trigger] trimmed(labels[i])) != lower_case(
            #[trigger] trimmed(labels[j]),
        )) {
        assert forall|i: int| 0 <= i < clean.len() implies (#[trigger] clean[i]).len() > 0 by {
            assert(clean[i] == trimmed(labels[i]));
        }
        if clash(clean) {
            let (i, j) = choose|i: int, j: int|
                #![trigger clean[i], clean[j]]
                0 <= i < j < clean.len() && lower_case(clean[i]) == lower_case(clean[j]);
            assert(clean[i] == trimmed(labels[i]));
            assert(clean[j] == trimmed(labels[j]));
        }
    }
}

proof fn longest_is_reached(texts: Seq<Seq<char>>)
    ensures
        forall|i: int| 0 <= i < texts.len() ==> (#[trigger] texts[i]).len() <= longest(texts),
        texts.len() > 0 ==> exists|i: int|
            0 <= i < texts.len() && (#[trigger] texts[i]).len() == longest(texts),
        texts.len() == 0 ==> longest(texts) == 0,
    decreases texts.len(),
{
    if texts.len() > 0 {
        let init = texts.drop_last();
        longest_is_reached(init);
        assert forall|i: int| 0 <= i < texts.len() implies (#[trigger] texts[i]).len() <= longest(
            texts,
        ) by {
            if i < init.len() {
                assert(init[i] == texts[i]);
            }
        }
        if texts.last().len() > longest(init) || init.len() == 0 {
            assert(texts[texts.len() - 1].len() == longest(texts));
        } else {
            let i = choose|i: int| 0 <= i < init.len() && (#[trigger] init[i]).len() == longest(init);
            assert(texts[i].len() == longest(texts));
        }
    }
}

/// The room for a label is enough for the longest of them, never less than
/// the least there is, and no more than either asks for.
pub proof fn every_label_has_room(labels: Seq<Seq<char>>)
    ensures
        token_budget(labels) >= MIN_TOKEN_BUDGET,
        forall|i: int|
            0 <= i < labels.len() && (#[trigger] labels[i]).len() * TOKENS_PER_LABEL_CHAR
                <= usize::MAX ==> token_budget(labels) >= labels[i].len() * TOKENS_PER_LABEL_CHAR,
        token_budget(labels) == MIN_TOKEN_BUDGET || token_budget(labels) == usize::MAX || exists|
            i: int,
        |
            0 <= i < labels.len() && token_budget(labels) == (#[trigger] labels[i]).len()
                * TOKENS_PER_LABEL_CHAR,
{
    longest_is_reached(labels);
}

/// What was said is the text the reply holds where it is a JSON text, else
/// the reply itself, without the white space around it.
pub proof fn a_reply_is_taken_without_its_quotes(reply: Seq<char>, text: Seq<char>)
    ensures
        said(reply, Some(text)) == trimmed(text),
        said(reply, None) == trimmed(reply),
{
}

} // verus!
