//! Will this model run on this machine, and at what context size?
//!
//! The question every local-inference app has to answer before it loads
//! anything. Answering it needs the model's own header (layer count, KV
//! heads, embedding width, training context) and the machine's memory.
use vstd::prelude::*;
use vstd::string::*;
use crate::error::Error;
use crate::message::copy_text;
use crate::text::{decimal, push_decimal};

verus! {

/// How the machine runs models.
#[derive(Debug, Clone, Copy, PartialEq, Eq, Structural)]
pub enum GpuBackend {
    Cpu,
    Metal,
    Cuda,
    Vulkan,
}

/// What the machine has.
#[derive(Debug, Clone, Copy, PartialEq, Eq, Structural)]
pub struct HardwareProfile {
    pub total_ram_bytes: u64,
    pub cpu_cores: u32,
    pub gpu_backend: GpuBackend,
    /// Discrete video memory; zero where memory is unified or there is none.
    pub vram_bytes: u64,
}

/// The sizes a model's header gives.
#[derive(Debug, Clone, Copy, PartialEq, Eq, Default)]
pub struct ModelMetadata {
    pub block_count: Option<u64>,
    pub head_count_kv: Option<u64>,
    pub head_count: Option<u64>,
    pub embedding_length: Option<u64>,
    pub context_length: Option<u64>,
    pub parameter_count: Option<u64>,
    pub supports_tools: Option<bool>,
}

/// What a model file says about itself.
#[derive(Debug, PartialEq, Eq)]
pub struct ModelInfo {
    /// Size of the model file on disk.
    pub file_bytes: u64,
    /// Architecture family.
    pub architecture: Option<String>,
    /// Quantization label.
    pub quantization: Option<String>,
    /// Estimated parameter count.
    pub parameters: Option<u64>,
    /// Context length the model was trained for.
    pub train_context: Option<u32>,
    /// Whether the chat template references tool-use variables.
    pub supports_tools: bool,
    /// The header's sizes, for anything the fields above do not cover.
    pub metadata: ModelMetadata,
}

impl Clone for ModelInfo {
    fn clone(&self) -> (out: Self)
        ensures
            out == *self,
    {
        ModelInfo {
            file_bytes: self.file_bytes,
            architecture: copy_text(&self.architecture),
            quantization: copy_text(&self.quantization),
            parameters: self.parameters,
            train_context: self.train_context,
            supports_tools: self.supports_tools,
            metadata: self.metadata,
        }
    }
}

/// What is made of a model file's header.
#[derive(Debug, PartialEq, Eq)]
pub struct Header {
    /// Architecture family.
    pub architecture: Option<String>,
    /// Quantization label.
    pub quantization: Option<String>,
    /// The sizes.
    pub metadata: ModelMetadata,
}

impl ModelInfo {
    /// What a model file says about itself, given its size, or why that
    /// cannot be read, and its header, which is nothing where it names no
    /// architecture.
    pub fn read(
        path: &str,
        size: Result<u64, String>,
        header: Result<Option<Header>, Error>,
    ) -> (out: Result<Self, Error>)
        ensures
            match (size, header) {
                (Err(why), _) => out matches Err(Error::Load(words)) && words@ == "cannot read "@
                    + path@ + ": "@ + why@,
                (Ok(_), Err(e)) => out == Err::<ModelInfo, Error>(e),
                (Ok(_), Ok(None)) => out matches Err(Error::Load(words)) && words@ == path@
                    + " has no usable architecture metadata"@,
                (Ok(file_bytes), Ok(Some(h))) => out == Ok::<ModelInfo, Error>(
                    ModelInfo {
                        file_bytes,
                        architecture: h.architecture,
                        quantization: h.quantization,
                        parameters: h.metadata.parameter_count,
                        train_context: match h.metadata.context_length {
                            Some(tokens) => Some(tokens as u32),
                            None => None,
                        },
                        supports_tools: h.metadata.supports_tools == Some(true),
                        metadata: h.metadata,
                    },
                ),
            },
    {
        let file_bytes = match size {
            Ok(bytes) => bytes,
            Err(why) => {
                let words = "cannot read ".to_owned().concat(path).concat(": ").concat(
                    why.as_str(),
                );
                return Err(Error::Load(words));
            },
        };
        let h = match header {
            Ok(Some(h)) => h,
            Ok(None) => {
                let words = path.to_owned().concat(" has no usable architecture metadata");
                return Err(Error::Load(words));
            },
            Err(e) => {
                return Err(e);
            },
        };
        Ok(
            ModelInfo {
                file_bytes,
                architecture: h.architecture,
                quantization: h.quantization,
                parameters: h.metadata.parameter_count,
                train_context: match h.metadata.context_length {
                    Some(tokens) => Some(
                        #[verifier::truncate]
                        (tokens as u32),
                    ),
                    None => None,
                },
                supports_tools: match h.metadata.supports_tools {
                    Some(supports) => supports,
                    None => false,
                },
                metadata: h.metadata,
            },
        )
    }
}

/// The three answers to "will it fit".
#[derive(Debug, Clone, Copy, PartialEq, Eq, Structural)]
pub enum FitVerdict {
    /// Runs at the requested context.
    Fits,
    /// The weights fit but the requested context does not. A smaller context
    /// works; see [`Fit::max_context`].
    ContextTooLarge,
    /// The weights alone exceed the budget. No context size helps.
    TooLarge,
}

/// Whether a model fits, and by how much.
#[derive(Debug, Clone, Copy, PartialEq, Eq, Structural)]
pub struct Fit {
    /// The verdict.
    pub verdict: FitVerdict,
    /// The context this verdict is about.
    pub context: u32,
    /// The largest context that would fit.
    pub max_context: u32,
    /// Memory needed at `context`.
    pub needed_bytes: u64,
    /// Memory the engine may use.
    pub available_bytes: u64,
    /// Size of the weights alone.
    pub model_bytes: u64,
}

/// The context assumed of a model whose header gives none.
pub const DEFAULT_TRAIN_CONTEXT: u32 = 4096;

/// A number, or the largest a machine word holds.
pub open spec fn capped(n: int) -> u64 {
    if n <= u64::MAX {
        n as u64
    } else {
        u64::MAX
    }
}

/// The smaller of two numbers.
pub open spec fn at_most(a: int, b: int) -> int {
    if a <= b {
        a
    } else {
        b
    }
}

/// How much memory the engine may use: three quarters of the discrete video
/// memory where there is some, else of the system's memory.
pub open spec fn budget(hw: HardwareProfile) -> u64 {
    ((if hw.vram_bytes > 0 {
        hw.vram_bytes
    } else {
        hw.total_ram_bytes
    }) / 4 * 3) as u64
}

/// The cached bytes one token takes: a key and a value of two bytes per
/// element, for each layer, head and dimension.
pub open spec fn kv_bytes(layers: int, kv_heads: int, head_dim: int) -> u64 {
    capped(layers * kv_heads * head_dim * 4)
}

impl ModelInfo {
    /// The cached bytes one token takes; one where the header does not say
    /// enough.
    pub open spec fn token_bytes(self) -> u64 {
        let m = self.metadata;
        match (m.block_count, m.head_count_kv, m.embedding_length, m.head_count) {
            (Some(layers), Some(kv_heads), Some(width), Some(heads)) if heads > 0 => kv_bytes(
                layers as int,
                kv_heads as int,
                width as int / heads as int,
            ),
            _ => 1,
        }
    }

    /// The bytes needed at a context: the weights and the cached tokens.
    pub open spec fn needed(self, context: int) -> u64 {
        capped(self.file_bytes + capped(self.token_bytes() * context))
    }

    /// The context the model was trained for.
    pub open spec fn trained(self) -> u32 {
        match self.train_context {
            Some(context) => context,
            None => DEFAULT_TRAIN_CONTEXT,
        }
    }

    /// The largest context for which the weights and the cached tokens stay
    /// within the budget, up to what the model was trained for.
    pub open spec fn largest_context(self, hw: HardwareProfile) -> u32 {
        if self.file_bytes >= budget(hw) {
            0
        } else if self.token_bytes() == 0 {
            self.trained()
        } else {
            at_most(
                self.trained() as int,
                (budget(hw) - self.file_bytes) / self.token_bytes() as int,
            ) as u32
        }
    }

    /// The largest context that several conversations, each with its own
    /// cached tokens, can have at once.
    pub open spec fn largest_context_for(self, hw: HardwareProfile, chats: nat) -> u32 {
        let per_token = self.token_bytes() * if chats == 0 {
            1
        } else {
            chats
        };
        if self.file_bytes >= budget(hw) {
            0
        } else if per_token == 0 {
            self.trained()
        } else {
            at_most(self.trained() as int, (budget(hw) - self.file_bytes) / per_token as int) as u32
        }
    }

    /// The verdict on a context.
    pub open spec fn verdict(self, hw: HardwareProfile, context: u32) -> FitVerdict {
        if self.file_bytes >= budget(hw) {
            FitVerdict::TooLarge
        } else if self.needed(context as int) <= budget(hw) {
            FitVerdict::Fits
        } else {
            FitVerdict::ContextTooLarge
        }
    }
}

fn capped_mul(a: u64, b: u64) -> (out: u64)
    ensures
        out == capped(a * b),
{
    match a.checked_mul(b) {
        Some(n) => n,
        None => u64::MAX,
    }
}

fn capped_add(a: u64, b: u64) -> (out: u64)
    ensures
        out == capped(a + b),
{
    match a.checked_add(b) {
        Some(n) => n,
        None => u64::MAX,
    }
}

/// How much memory the engine may use.
///
/// Discrete video memory when there is some, otherwise system memory, which
/// is also the right answer where memory is unified. Leaves a quarter of the
/// machine to everything else.
pub fn budget_bytes(hw: &HardwareProfile) -> (out: u64)
    ensures
        out == budget(*hw),
{
    let total = if hw.vram_bytes > 0 {
        hw.vram_bytes
    } else {
        hw.total_ram_bytes
    };
    total / 4 * 3
}

/// A capped product of capped factors is the capped product, as long as no
/// later factor is zero after the cap was met.
proof fn capped_product(a: int, b: int, c: int)
    requires
        0 <= a,
        0 <= b,
        0 < c,
    ensures
        capped(capped(a * b) as int * c) == capped(a * b * c),
{
    assert(0 <= a * b) by (nonlinear_arith)
        requires
            0 <= a,
            0 <= b,
    ;
    if a * b > u64::MAX {
        let n = a * b;
        let top = u64::MAX as int;
        assert(n * c >= n && top * c >= top) by (nonlinear_arith)
            requires
                c >= 1,
                n > top,
                top > 0,
        ;
    }
}

/// The cached bytes one token takes.
pub fn kv_bytes_per_token(layers: u64, kv_heads: u64, head_dim: u64) -> (out: u64)
    ensures
        out == kv_bytes(layers as int, kv_heads as int, head_dim as int),
{
    if head_dim == 0 {
        assert(layers * kv_heads * 0 * 4 == 0) by (nonlinear_arith);
        return 0;
    }
    proof {
        capped_product(layers as int, kv_heads as int, head_dim as int);
        let n = layers as int * kv_heads as int;
        assert(0 <= n) by (nonlinear_arith)
            requires
                n == layers as int * kv_heads as int,
                layers >= 0,
                kv_heads >= 0,
        ;
        capped_product(n, head_dim as int, 4);
    }
    capped_mul(capped_mul(capped_mul(layers, kv_heads), head_dim), 4)
}

impl ModelInfo {
    /// Bytes of memory needed to run at `context`.
    pub fn memory_needed(&self, context: u32) -> (out: u64)
        ensures
            out == self.needed(context as int),
    {
        capped_add(self.file_bytes, capped_mul(self.kv_per_token(), context as u64))
    }

    /// Memory cost of one token of context.
    ///
    /// Without architecture detail a token counts for next to nothing, so
    /// context sizing falls back to the training context rather than
    /// pretending to a precision the header does not support.
    pub fn kv_per_token(&self) -> (out: u64)
        ensures
            out == self.token_bytes(),
    {
        match (
            self.metadata.block_count,
            self.metadata.head_count_kv,
            self.metadata.embedding_length,
            self.metadata.head_count,
        ) {
            (Some(layers), Some(kv_heads), Some(width), Some(heads)) if heads > 0 => {
                kv_bytes_per_token(layers, kv_heads, width / heads)
            },
            _ => 1,
        }
    }

    /// The largest context this machine can give the model.
    pub fn max_context(&self, hw: &HardwareProfile) -> (out: u32)
        ensures
            out == self.largest_context(*hw),
    {
        let budget = budget_bytes(hw);
        let trained = match self.train_context {
            Some(context) => context,
            None => DEFAULT_TRAIN_CONTEXT,
        };
        if self.file_bytes >= budget {
            return 0;
        }
        let per_token = self.kv_per_token();
        if per_token == 0 {
            return trained;
        }
        let room = (budget - self.file_bytes) / per_token;
        if trained as u64 <= room {
            trained
        } else {
            room as u32
        }
    }

    /// The largest context this machine can give each of several
    /// conversations. Every live conversation holds its own cached tokens, so
    /// a window picked for one is exceeded as soon as a second opens.
    pub fn max_context_for(&self, hw: &HardwareProfile, chats: usize) -> (out: u32)
        ensures
            out == self.largest_context_for(*hw, chats as nat),
    {
        let budget = budget_bytes(hw);
        let trained = match self.train_context {
            Some(context) => context,
            None => DEFAULT_TRAIN_CONTEXT,
        };
        if self.file_bytes >= budget {
            return 0;
        }
        let count: u64 = if chats == 0 {
            1
        } else {
            chats as u64
        };
        let per_token: u128 = self.kv_per_token() as u128;
        assert(0 <= per_token * count <= u64::MAX * u64::MAX) by (nonlinear_arith)
            requires
                per_token <= u64::MAX,
                count <= u64::MAX,
        ;
        let per_token: u128 = per_token * (count as u128);
        if per_token == 0 {
            return trained;
        }
        let free: u128 = (budget - self.file_bytes) as u128;
        let room: u128 = free / per_token;
        assert(0 <= room <= free) by (nonlinear_arith)
            requires
                room == free / per_token,
                per_token > 0,
        ;
        if trained as u128 <= room {
            trained
        } else {
            room as u32
        }
    }

    /// Whether this machine can run the model, and how comfortably.
    ///
    /// `context` is what you intend to use; `None` asks for the largest that
    /// fits.
    pub fn fits(&self, hw: &HardwareProfile, context: Option<u32>) -> (out: Fit)
        ensures
            out.context == (match context {
                Some(context) => context,
                None => self.largest_context(*hw),
            }),
            out.max_context == self.largest_context(*hw),
            out.needed_bytes == self.needed(out.context as int),
            out.available_bytes == budget(*hw),
            out.model_bytes == self.file_bytes,
            out.verdict == self.verdict(*hw, out.context),
            out.verdict == FitVerdict::Fits <==> out.model_bytes < out.available_bytes
                && out.needed_bytes <= out.available_bytes,
            out.verdict == FitVerdict::ContextTooLarge <==> out.model_bytes < out.available_bytes
                && out.available_bytes < out.needed_bytes,
            out.verdict == FitVerdict::TooLarge <==> out.available_bytes <= out.model_bytes,
    {
        let budget = budget_bytes(hw);
        let max_context = self.max_context(hw);
        let context = context.unwrap_or(max_context);
        let needed = self.memory_needed(context);
        let verdict = if self.file_bytes >= budget {
            // The weights alone do not fit; no context size rescues that.
            FitVerdict::TooLarge
        } else if needed <= budget {
            FitVerdict::Fits
        } else {
            FitVerdict::ContextTooLarge
        };
        Fit {
            verdict,
            context,
            max_context,
            needed_bytes: needed,
            available_bytes: budget,
            model_bytes: self.file_bytes,
        }
    }
}

/// The largest context is never more than the model was trained for.
pub proof fn max_context_within_training(info: ModelInfo, hw: HardwareProfile)
    ensures
        info.largest_context(hw) <= info.trained(),
{
    if info.file_bytes < budget(hw) && info.token_bytes() > 0 {
        largest_is_room(info, hw);
    }
}

proof fn largest_is_room(info: ModelInfo, hw: HardwareProfile)
    requires
        info.file_bytes < budget(hw),
        info.token_bytes() > 0,
    ensures
        info.largest_context(hw) as int == at_most(
            info.trained() as int,
            (budget(hw) - info.file_bytes) / info.token_bytes() as int,
        ),
{
    let room = budget(hw) - info.file_bytes;
    let per = info.token_bytes() as int;
    assert(room / per >= 0) by (nonlinear_arith)
        requires
            room > 0,
            per > 0,
    ;
}

/// The model fits at the context it is told it may have, whenever its
/// weights fit at all.
pub proof fn max_context_fits(info: ModelInfo, hw: HardwareProfile)
    requires
        info.file_bytes < budget(hw),
    ensures
        info.verdict(hw, info.largest_context(hw)) == FitVerdict::Fits,
{
    let room = budget(hw) - info.file_bytes;
    let per = info.token_bytes() as int;
    let context = info.largest_context(hw) as int;
    if per == 0 {
        assert(per * context == 0) by (nonlinear_arith)
            requires
                per == 0,
        ;
    } else {
        largest_is_room(info, hw);
        assert(per * context <= room) by (nonlinear_arith)
            requires
                per > 0,
                0 <= context <= room / per,
        ;
        assert(0 <= per * context) by (nonlinear_arith)
            requires
                per > 0,
                0 <= context,
        ;
    }
}

/// At the context several conversations are given, the weights and all their
/// cached tokens together stay within the budget.
pub proof fn every_conversation_fits(info: ModelInfo, hw: HardwareProfile, chats: nat)
    requires
        info.file_bytes < budget(hw),
        chats > 0,
    ensures
        info.file_bytes + chats * (info.token_bytes() * info.largest_context_for(hw, chats))
            <= budget(hw),
        info.largest_context_for(hw, chats) <= info.trained(),
{
    let room = budget(hw) - info.file_bytes;
    let bytes = info.token_bytes() as int;
    let n = chats as int;
    let per = bytes * n;
    let context = info.largest_context_for(hw, chats) as int;
    if per == 0 {
        assert(n * (bytes * context) == 0) by (nonlinear_arith)
            requires
                bytes * n == 0,
                n > 0,
        ;
    } else {
        assert(per > 0) by (nonlinear_arith)
            requires
                per == bytes * n,
                per != 0,
                bytes >= 0,
                n > 0,
        ;
        assert(room / per >= 0) by (nonlinear_arith)
            requires
                room > 0,
                per > 0,
        ;
        assert(context == at_most(info.trained() as int, room / per));
        assert(n * (bytes * context) <= room) by (nonlinear_arith)
            requires
                per == bytes * n,
                per > 0,
                0 <= context <= room / per,
        ;
    }
}

/// A larger context never needs less memory.
pub proof fn needed_grows_with_context(info: ModelInfo, a: u32, b: u32)
    requires
        a <= b,
    ensures
        info.needed(a as int) <= info.needed(b as int),
{
    let per = info.token_bytes() as int;
    let (x, y) = (a as int, b as int);
    assert(0 <= per * x <= per * y) by (nonlinear_arith)
        requires
            0 <= per,
            0 <= x <= y,
    ;
}

/// Weights that do not fit are too large at any context.
pub proof fn too_large_at_any_context(info: ModelInfo, hw: HardwareProfile, context: u32)
    requires
        info.file_bytes >= budget(hw),
    ensures
        info.verdict(hw, context) == FitVerdict::TooLarge,
{
}

// ── In words ────────────────────────────────────────────────────────────────

/// Tenths of a gibibyte, rounded to the nearest and to even where two are as
/// near.
pub open spec fn tenths(bytes: nat) -> nat {
    let unit = 1073741824nat;
    let whole = bytes * 10 / unit;
    let rest = bytes * 10 % unit;
    if rest * 2 > unit || (rest * 2 == unit && whole % 2 == 1) {
        whole + 1
    } else {
        whole
    }
}

/// A number of bytes in gibibytes, to one decimal.
pub open spec fn gigabytes(bytes: nat) -> Seq<char> {
    decimal(tenths(bytes) / 10) + "."@ + decimal(tenths(bytes) % 10)
}

fn push_gigabytes(out: &mut String, bytes: u64)
    ensures
        final(out)@ == old(out)@ + gigabytes(bytes as nat),
{
    let ghost before = out@;
    let scaled: u128 = bytes as u128 * 10;
    let unit: u128 = 1073741824;
    let whole: u128 = scaled / unit;
    let rest: u128 = scaled % unit;
    let rounded: u128 = if rest * 2 > unit || (rest * 2 == unit && whole % 2 == 1) {
        whole + 1
    } else {
        whole
    };
    push_decimal(out, (rounded / 10) as u64);
    out.append(".");
    push_decimal(out, (rounded % 10) as u64);
    assert(rounded == tenths(bytes as nat));
    assert(out@ =~= before + gigabytes(bytes as nat));
}

impl Fit {
    /// The verdict in words.
    pub open spec fn words(self) -> Seq<char> {
        match self.verdict {
            FitVerdict::Fits => "fits at "@ + decimal(self.context as nat) + " context ("@
                + gigabytes(self.needed_bytes as nat) + " GB of "@ + gigabytes(
                self.available_bytes as nat,
            ) + " GB)"@,
            FitVerdict::ContextTooLarge => decimal(self.context as nat) + " context needs "@
                + gigabytes(self.needed_bytes as nat) + " GB but only "@ + gigabytes(
                self.available_bytes as nat,
            ) + " GB is available; "@ + decimal(self.max_context as nat) + " context would fit"@,
            FitVerdict::TooLarge => "the weights alone are "@ + gigabytes(self.model_bytes as nat)
                + " GB, more than the "@ + gigabytes(self.available_bytes as nat)
                + " GB available"@,
        }
    }

    /// Whether the model can run at this context.
    pub fn ok(&self) -> (out: bool)
        ensures
            out == (self.verdict == FitVerdict::Fits),
    {
        self.verdict == FitVerdict::Fits
    }

    /// The verdict in words.
    pub fn to_string(&self) -> (out: String)
        ensures
            out@ == self.words(),
    {
        let mut out = String::new();
        match self.verdict {
            FitVerdict::Fits => {
                out.append("fits at ");
                push_decimal(&mut out, self.context as u64);
                out.append(" context (");
                push_gigabytes(&mut out, self.needed_bytes);
                out.append(" GB of ");
                push_gigabytes(&mut out, self.available_bytes);
                out.append(" GB)");
            },
            FitVerdict::ContextTooLarge => {
                push_decimal(&mut out, self.context as u64);
                out.append(" context needs ");
                push_gigabytes(&mut out, self.needed_bytes);
                out.append(" GB but only ");
                push_gigabytes(&mut out, self.available_bytes);
                out.append(" GB is available; ");
                push_decimal(&mut out, self.max_context as u64);
                out.append(" context would fit");
            },
            FitVerdict::TooLarge => {
                out.append("the weights alone are ");
                push_gigabytes(&mut out, self.model_bytes);
                out.append(" GB, more than the ");
                push_gigabytes(&mut out, self.available_bytes);
                out.append(" GB available");
            },
        }
        assert(out@ =~= self.words());
        out
    }
}

// ── What the numbers mean ───────────────────────────────────────────────────

/// The engine may use three quarters of a memory, to within the quarter's
/// rounding: of the video memory where there is some, else of the system's.
pub proof fn a_quarter_is_left_to_the_machine(hw: HardwareProfile)
    ensures
        ({
            let memory = if hw.vram_bytes == 0 {
                hw.total_ram_bytes
            } else {
                hw.vram_bytes
            };
            &&& 4 * budget(hw) <= 3 * memory
            &&& 3 * memory < 4 * budget(hw) + 12
        }),
{
}

/// A verdict follows from the numbers beside it. The weights are too large
/// exactly where they do not stay below what is available; else the model
/// fits exactly where what is needed is no more than what is available.
pub proof fn a_verdict_follows_from_its_numbers(info: ModelInfo, hw: HardwareProfile, context: u32)
    ensures
        ({
            let verdict = info.verdict(hw, context);
            let available = budget(hw);
            &&& verdict == FitVerdict::TooLarge <==> available <= info.file_bytes
            &&& verdict == FitVerdict::Fits <==> info.file_bytes < available && info.needed(
                context as int,
            ) <= available
            &&& verdict == FitVerdict::ContextTooLarge <==> info.file_bytes < available
                && available < info.needed(context as int)
        }),
{
}

/// What is needed is the weights and one share per token of context, as far
/// as a machine word can tell.
pub proof fn needed_is_weights_and_tokens(info: ModelInfo, context: u32)
    ensures
        info.file_bytes + info.token_bytes() * context <= u64::MAX ==> info.needed(context as int)
            == info.file_bytes + info.token_bytes() * context,
        info.file_bytes + info.token_bytes() * context > u64::MAX ==> info.needed(context as int)
            == u64::MAX,
        info.needed(0) == info.file_bytes,
{
    let per = info.token_bytes() as int;
    let n = context as int;
    assert(0 <= per * n) by (nonlinear_arith)
        requires
            0 <= per,
            0 <= n,
    ;
    assert(per * 0 == 0) by (nonlinear_arith);
}

/// A token takes a key and a value of two bytes each for every layer, head
/// and dimension of a head, where the header says how many there are.
pub proof fn a_token_s_share(info: ModelInfo, layers: u64, kv_heads: u64, width: u64, heads: u64)
    requires
        info.metadata.block_count == Some(layers),
        info.metadata.head_count_kv == Some(kv_heads),
        info.metadata.embedding_length == Some(width),
        info.metadata.head_count == Some(heads),
        heads > 0,
    ensures
        ({
            let share = 2 * 2 * (layers * kv_heads * (width as int / heads as int));
            &&& share <= u64::MAX ==> info.token_bytes() == share
            &&& share > u64::MAX ==> info.token_bytes() == u64::MAX
        }),
{
    let d = width as int / heads as int;
    let p = layers * kv_heads * d;
    assert(p * 4 == 2 * 2 * p) by (nonlinear_arith);
}

/// Where the header does not say enough, a token counts for one byte.
pub proof fn an_unknown_share_is_one_byte(info: ModelInfo)
    requires
        info.metadata.block_count is None || info.metadata.head_count_kv is None
            || info.metadata.embedding_length is None || info.metadata.head_count is None
            || info.metadata.head_count == Some(0u64),
    ensures
        info.token_bytes() == 1,
{
}

/// The largest context is the largest: it fits, and no larger one that the
/// model was trained for does.
pub proof fn no_larger_context_fits(info: ModelInfo, hw: HardwareProfile, context: u32)
    requires
        info.file_bytes < budget(hw),
        info.largest_context(hw) < context,
        info.train_context matches Some(trained) ==> context <= trained,
        info.train_context is None ==> context <= DEFAULT_TRAIN_CONTEXT,
    ensures
        budget(hw) < info.needed(context as int),
{
    max_context_within_training(info, hw);
    let room = budget(hw) - info.file_bytes;
    let per = info.token_bytes() as int;
    let n = context as int;
    if per > 0 {
        largest_is_room(info, hw);
        assert(per * n > room) by (nonlinear_arith)
            requires
                per > 0,
                n > room / per,
        ;
    }
}

/// Weights that do not fit leave no context at all, and a context is never
/// larger than the model was trained for.
pub proof fn a_context_is_bounded(info: ModelInfo, hw: HardwareProfile, chats: nat)
    ensures
        budget(hw) <= info.file_bytes ==> info.largest_context(hw) == 0
            && info.largest_context_for(hw, chats) == 0,
        info.train_context matches Some(trained) ==> info.largest_context(hw) <= trained,
        info.train_context is None ==> info.largest_context(hw) <= DEFAULT_TRAIN_CONTEXT,
        info.largest_context_for(hw, 0) == info.largest_context(hw),
        info.largest_context_for(hw, 1) == info.largest_context(hw),
{
    max_context_within_training(info, hw);
    let per = info.token_bytes() as int;
    assert(per * 1 == per) by (nonlinear_arith);
}

/// No larger context could be given to each of several conversations at once.
pub proof fn no_larger_context_fits_every_conversation(
    info: ModelInfo,
    hw: HardwareProfile,
    chats: nat,
    context: u32,
)
    requires
        info.file_bytes < budget(hw),
        chats > 0,
        info.largest_context_for(hw, chats) < context,
        info.train_context matches Some(trained) ==> context <= trained,
        info.train_context is None ==> context <= DEFAULT_TRAIN_CONTEXT,
    ensures
        budget(hw) < info.file_bytes + chats * (info.token_bytes() * context),
{
    let room = budget(hw) - info.file_bytes;
    let bytes = info.token_bytes() as int;
    let n = chats as int;
    let per = bytes * n;
    let c = context as int;
    let most = info.largest_context_for(hw, chats) as int;
    assert(per >= 0) by (nonlinear_arith)
        requires
            per == bytes * n,
            bytes >= 0,
            n > 0,
    ;
    if per > 0 {
        assert(room / per >= 0) by (nonlinear_arith)
            requires
                room > 0,
                per > 0,
        ;
        assert(most == at_most(info.trained() as int, room / per));
        assert(n * (bytes * c) > room) by (nonlinear_arith)
            requires
                per == bytes * n,
                per > 0,
                c > room / per,
        ;
    }
}

} // verus!
