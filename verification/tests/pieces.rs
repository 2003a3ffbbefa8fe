use gen2::classify::{pick, repeats, validate, Classify, MIN_TOKEN_BUDGET};
use gen2::engine::{
    first_claim, is_url, load_answer, one_vector, service_answer, stop_answer, BackendPlugin,
    ControllerConfig, EngineBuilder, Settings,
};
use gen2::error::{Error, ExecError, SessionError, ToolConfigError};
use gen2::extract::{decoded_part, undecoded, Extract, DEFAULT_MAX_TOKENS};
use gen2::fit::{FitVerdict, GpuBackend, HardwareProfile, Header, ModelInfo, ModelMetadata};
use gen2::generation::{GenSpec, GrammarSpec};
use gen2::inference::Inference;
use gen2::input::{Image, Input, InputPart};
use gen2::json::{text_of_json, Json};
use gen2::message::{Message, MessageBody, MessageChunk, MessageContent};
use gen2::model::{
    is_reasoning_architecture, EngineAbilities, Model, ModelCapabilities, ModelId,
    ModelSourceKind, RunningModel,
};
use gen2::output::{FinishReason, GenerationStats, Usage};
use gen2::runtime::{
    display_name, Governor, ModelResidency, ResidencySnapshot, Room, Runtime,
};
use gen2::session::Session;
use gen2::session_model::MessageId;
use gen2::stream::{repeating_name, Completion, ExecutionStats, Finish};
use gen2::text::{
    chars_of, decimal_text, join_texts, lower_chars, no_later, same_text, split_once, starts_with,
    string_of, trim,
};

// ── Errors ──────────────────────────────────────────────────────────────────

#[test]
fn generation_errors_expose_their_code_for_routing() {
    let e = Error::Generation {
        code: "context_overflow".into(),
        message: "too long".into(),
    };
    assert_eq!(e.code(), Some("context_overflow"));
    assert!(e.is_retryable());
}

#[test]
fn structural_failures_are_not_retryable() {
    assert_eq!(Error::ModelNotLoaded.code(), None);
    assert!(!Error::ModelNotLoaded.is_retryable());
    assert!(!Error::ControllerGone.is_retryable());
}

#[test]
fn exec_errors_convert_without_losing_their_message() {
    let e: Error = ExecError::ContextOverflow("4096 exceeded".into()).into();
    assert!(e.to_string().contains("4096 exceeded"));
}

#[test]
fn a_poisoned_session_is_not_retryable() {
    let poisoned = Error::Generation {
        code: "session_poisoned".into(),
        message: "session state lost".into(),
    };
    assert!(!poisoned.is_retryable());

    let transient = Error::Generation {
        code: "generation_error".into(),
        message: "the GPU hiccuped".into(),
    };
    assert!(
        transient.is_retryable(),
        "an ordinary generation failure may well succeed on a second try"
    );
}

#[test]
fn nothing_outside_a_generation_failure_is_retryable() {
    assert!(!Error::ControllerGone.is_retryable());
    assert!(!Error::Load("no such file".into()).is_retryable());
}

#[test]
fn every_error_speaks_and_routes() {
    let extraction = undecoded("a label", "odd", "raw".into());
    let cases: Vec<(Error, Option<&str>, &str)> = vec![
        (
            Error::Unsupported("images".into()),
            Some("unsupported"),
            "does not support images",
        ),
        (Error::InvalidRequest("why".into()), None, "why"),
        (Error::Load("no such file".into()), None, "no such file"),
        (
            Error::from(SessionError::NotActive(MessageId(3))),
            None,
            "m3",
        ),
        (
            Error::from(ToolConfigError::DuplicateName("read".into())),
            None,
            "read",
        ),
        (extraction, None, "odd"),
    ];
    for (error, code, needle) in cases {
        if code.is_some() {
            assert_eq!(error.code(), code, "{error:?}");
        }
        let words = error.to_string();
        assert!(words.contains(needle), "{words:?} lacks {needle:?}");
        assert!(!error.is_retryable());
        assert!(error.fit().is_none());
    }
}

// ── Fit ─────────────────────────────────────────────────────────────────────

fn machine(ram_gb: u64) -> HardwareProfile {
    HardwareProfile {
        total_ram_bytes: ram_gb * 1024 * 1024 * 1024,
        cpu_cores: 8,
        gpu_backend: GpuBackend::Metal,
        vram_bytes: 0,
    }
}

fn sized(file_gb: u64) -> ModelInfo {
    let metadata = ModelMetadata {
        block_count: Some(32),
        head_count_kv: Some(8),
        head_count: Some(32),
        embedding_length: Some(4096),
        context_length: Some(32768),
        ..Default::default()
    };
    ModelInfo {
        file_bytes: file_gb * 1024 * 1024 * 1024,
        architecture: Some("llama".into()),
        quantization: Some("Q4_K_M".into()),
        parameters: None,
        train_context: Some(32768),
        supports_tools: false,
        metadata,
    }
}

#[test]
fn a_small_model_on_a_big_machine_fits() {
    let fit = sized(4).fits(&machine(64), Some(8192));
    assert_eq!(fit.verdict, FitVerdict::Fits);
    assert!(fit.ok());
    assert!(fit.to_string().contains("fits at 8192"));
}

#[test]
fn weights_larger_than_the_budget_are_too_large_at_any_context() {
    let fit = sized(64).fits(&machine(16), Some(2048));
    assert_eq!(fit.verdict, FitVerdict::TooLarge);
    assert!(!fit.ok());
    // No context size rescues it, so don't suggest one.
    assert!(fit.to_string().contains("weights alone"));
}

#[test]
fn an_oversized_context_is_reported_as_such_with_one_that_would_work() {
    // Weights fit; the requested context does not.
    let info = sized(8);
    let hw = machine(16);
    let fit = info.fits(&hw, Some(1_000_000));
    assert_eq!(fit.verdict, FitVerdict::ContextTooLarge);
    assert!(
        fit.max_context < 1_000_000,
        "should report a smaller workable context"
    );
    assert!(fit.to_string().contains("would fit"));
}

#[test]
fn max_context_never_exceeds_what_the_model_was_trained_for() {
    // A huge machine must not offer more context than the model supports.
    let fit = sized(1).fits(&machine(512), None);
    assert!(fit.max_context <= 32768, "capped by train_context");
    assert_eq!(fit.verdict, FitVerdict::Fits);
}

#[test]
fn asking_for_no_context_uses_the_largest_that_fits() {
    let info = sized(4);
    let hw = machine(64);
    let fit = info.fits(&hw, None);
    assert_eq!(fit.context, info.max_context(&hw));
}

#[test]
fn vram_is_the_budget_when_a_discrete_gpu_reports_some() {
    let mut hw = machine(128);
    hw.vram_bytes = 8 * 1024 * 1024 * 1024;
    hw.gpu_backend = GpuBackend::Cuda;
    // 128 GB of RAM must not excuse a model that won't fit in 8 GB of VRAM.
    let fit = sized(16).fits(&hw, Some(4096));
    assert_eq!(fit.verdict, FitVerdict::TooLarge);
}

#[test]
fn what_a_context_costs_is_keys_and_values_for_every_token() {
    let info = sized(4);
    // Two bytes for each of keys and values, a head of 4096 / 32.
    assert_eq!(info.kv_per_token(), 2 * 2 * 32 * 8 * 128);
    assert_eq!(
        info.memory_needed(1000) - info.memory_needed(0),
        1000 * info.kv_per_token()
    );
}

#[test]
fn a_context_shared_by_conversations_is_the_smaller_for_it() {
    let info = sized(8);
    let hw = machine(16);
    let alone = info.max_context_for(&hw, 1);
    let shared = info.max_context_for(&hw, 4);
    assert_eq!(alone, info.max_context(&hw));
    assert!(shared < alone);
    assert!(info.fits(&hw, Some(shared)).ok());
}

// ── Input ───────────────────────────────────────────────────────────────────

#[test]
fn a_string_is_a_single_text_part() {
    let input = Input::new().text("hi");
    assert_eq!(input.parts(), &[InputPart::Text("hi".into())]);
    assert!(!input.has_images());
    assert_eq!(input.text_only(), "hi");
}

#[test]
fn text_only_input_becomes_a_plain_user_message() {
    let msg = Input::new().text("a").text("b").into_message();
    assert_eq!(msg.role, "user");
    assert!(matches!(
        msg.body,
        MessageBody::Content {
            content: MessageContent::SingleText(ref t)
        } if t == "a\nb"
    ));
}

#[test]
fn an_empty_text_part_is_joined_like_any_other() {
    assert_eq!(Input::new().text("").text("b").text_only(), "\nb");
    assert_eq!(Input::new().text("a").text("").text_only(), "a\n");
    assert_eq!(Input::new().text("").text("").text("").text_only(), "\n\n");
    assert_eq!(Input::new().text("").text_only(), "");
    assert_eq!(Input::new().text_only(), "");
    let input = Input::new().text("").image("/a.png").text("b");
    assert_eq!(input.text_only(), "\nb", "an image joins nothing");
    assert_eq!(
        Input::new().text("").text("b").into_message().text(),
        "\nb"
    );
}

#[test]
fn images_become_file_url_chunks_after_the_text() {
    let msg = Input::new()
        .text("Compare")
        .image("/tmp/a.png")
        .image("https://x/b.png")
        .into_message();
    let MessageBody::Content {
        content: MessageContent::MultipleChunks(chunks),
    } = msg.body
    else {
        panic!("an input with images must be a chunked message");
    };
    assert_eq!(chunks.len(), 3);
    assert!(matches!(&chunks[0], MessageChunk::Text { text } if text == "Compare"));
    assert!(
        matches!(&chunks[1], MessageChunk::ImageUrl { image_url } if image_url.url == "file:///tmp/a.png")
    );
    assert!(
        matches!(&chunks[2], MessageChunk::ImageUrl { image_url } if image_url.url == "https://x/b.png")
    );
}

#[test]
fn an_image_keeps_its_source() {
    assert_eq!(Image::from_path("/a.png").source(), "/a.png");
    assert_eq!(Image::from_url("https://x").source(), "https://x");
    let input = Input::new().part(InputPart::image("/a.png"));
    assert!(input.has_images());
    assert_eq!(input.text_only(), "");
}

// ── Output ──────────────────────────────────────────────────────────────────

#[test]
fn stats_report_nothing_when_the_backend_did_not() {
    let s = GenerationStats::from_reported(None);
    assert!(!s.reported());
    assert_eq!(s.time_to_first_token(), None);
    assert_eq!(s.usage(), Usage::default());
    let s = GenerationStats::from(ExecutionStats {
        prompt_tokens: 3,
        decode_tokens: 2,
        first_token_us: 1500,
        ..Default::default()
    });
    assert!(s.reported());
    assert_eq!(s.usage().total_tokens(), 5);
    assert_eq!(s.time_to_first_token(), Some(1500));
}

#[test]
fn reasoning_time_is_told_only_where_there_was_any() {
    let s = GenerationStats::from(ExecutionStats {
        reasoning_ms: Some(20),
        ..Default::default()
    });
    assert_eq!(s.reasoning_time(), Some(20));
    assert_eq!(
        GenerationStats::from(ExecutionStats::default()).reasoning_time(),
        None
    );
    assert_eq!(s.execution().reasoning_ms, Some(20));
}

#[test]
fn finish_reasons_have_names() {
    let names: Vec<String> = [
        FinishReason::Stop,
        FinishReason::Length,
        FinishReason::ToolCall,
        FinishReason::Cancelled,
        FinishReason::ContentFilter,
        FinishReason::Error,
        FinishReason::Other("odd".into()),
    ]
    .iter()
    .map(FinishReason::to_string)
    .collect();
    assert_eq!(
        names,
        [
            "stop",
            "length",
            "tool_call",
            "cancelled",
            "content_filter",
            "error",
            "other(odd)"
        ]
    );
}

// ── Models ──────────────────────────────────────────────────────────────────

#[test]
fn reasoning_is_claimed_only_for_families_the_crate_knows() {
    assert!(is_reasoning_architecture("qwen3"));
    assert!(is_reasoning_architecture("gemma4"));
    assert!(!is_reasoning_architecture("llama"));
    assert!(!is_reasoning_architecture("qwen2"));
}

fn abilities(images: bool, audio: bool, grammar: bool) -> EngineAbilities {
    EngineAbilities {
        images,
        audio,
        grammar,
    }
}

#[test]
fn info_and_capabilities_describe_the_loaded_model() {
    let model = Model::new(
        ModelId(0),
        Some("scripted".into()),
        ModelSourceKind::LocalFile,
        None,
    );
    let info = model.info(Some(RunningModel {
        architecture: None,
        context: Some(2048),
        offload: None,
    }));
    assert_eq!(info.context_window, Some(2048));
    assert_eq!(info.source, ModelSourceKind::LocalFile);
    assert!(info.local);
    assert_eq!(info.name.as_deref(), Some("scripted"));

    let caps = model.capabilities(abilities(true, false, true), None);
    assert!(caps.text);
    assert!(caps.images);
    assert!(!caps.audio);
    assert!(caps.tools && caps.structured_output);
    assert!(
        !caps.reasoning,
        "nothing about a scripted backend says it reasons"
    );
    assert_eq!(
        ModelCapabilities::default(),
        ModelCapabilities {
            text: false,
            images: false,
            audio: false,
            tools: false,
            reasoning: false,
            structured_output: false,
        }
    );
}

#[test]
fn what_runs_wins_over_what_the_header_says_of_it() {
    let header = ModelInfo {
        architecture: Some("qwen3".into()),
        ..sized(1)
    };
    let model = Model::new(ModelId(1), None, ModelSourceKind::LocalFile, Some(header));
    assert_eq!(model.info(None).architecture.as_deref(), Some("qwen3"));
    let running = RunningModel {
        architecture: Some("llama".into()),
        context: None,
        offload: None,
    };
    assert_eq!(
        model.info(Some(running)).architecture.as_deref(),
        Some("llama")
    );
    // Reasoning goes by the header first, and tools by its template.
    let caps = model.capabilities(abilities(false, false, false), Some("llama".into()));
    assert!(caps.reasoning);
    assert!(!caps.tools);
}

#[test]
fn a_remote_model_claims_neither_tools_nor_a_schema() {
    let model = Model::new(ModelId(2), Some("m".into()), ModelSourceKind::Remote, None);
    let caps = model.capabilities(abilities(true, true, true), Some("gemma4".into()));
    assert!(!caps.tools && !caps.structured_output);
    assert!(caps.text && caps.images && caps.audio && caps.reasoning);
    assert!(!model.info(None).local);
    assert_eq!(model.id().to_string(), "model-2");
}

// ── The runtime ─────────────────────────────────────────────────────────────

fn config() -> ControllerConfig {
    ControllerConfig {
        max_active_chats: 3,
        event_channel_capacity: 16,
        plugins: vec![],
    }
}

fn settings() -> Settings {
    Settings { ctx_size: None }
}

fn idle() -> Governor {
    Governor {
        inference_resident_mb: 0,
        can_load: false,
    }
}

fn runtime(budget: u64) -> Runtime {
    Runtime::builder(config())
        .resident_budget_mb(budget)
        .build(settings())
}

fn load(runtime: &mut Runtime, mb: u64, now: u128) -> ModelId {
    while let Room::Evict(id) = runtime.room(mb, None, idle()) {
        runtime.evicted(id);
    }
    let model = runtime.register(Some("m".into()), ModelSourceKind::LocalFile, None, mb);
    runtime.touch(model.id(), now);
    model.id()
}

#[test]
fn a_runtime_lists_what_it_loaded() {
    let mut runtime = Runtime::builder(config())
        .max_active_sessions(2)
        .build(settings());
    assert!(runtime.models().is_empty());
    let a = runtime.register(None, ModelSourceKind::LocalFile, None, 0);
    let b = runtime.register(None, ModelSourceKind::LocalFile, None, 0);
    assert_ne!(a.id(), b.id());
    assert_eq!(runtime.models(), vec![a.id(), b.id()]);
}

#[test]
fn a_remote_model_needs_a_url_and_a_name_before_it_connects() {
    let runtime = Runtime::new(config(), settings());
    let err = Runtime::openai().model("m").connect(&runtime).err().unwrap();
    assert!(
        err.to_string().contains("base_url"),
        "got: {}",
        err.to_string()
    );
    let err = Runtime::openai()
        .base_url("http://127.0.0.1:1/v1")
        .connect(&runtime)
        .err()
        .unwrap();
    assert!(
        err.to_string().contains("model"),
        "got: {}",
        err.to_string()
    );
    let connection = Runtime::anthropic()
        .base_url("https://api/v1")
        .api_key("k")
        .model("m")
        .connect(&runtime)
        .ok()
        .unwrap();
    assert_eq!(connection.name, "m");
    let plan = connection
        .engine
        .build(config(), settings(), None, &machine(16))
        .ok()
        .unwrap();
    assert_eq!(plan.api_format.as_deref(), Some("anthropic"));
    assert_eq!(plan.remote_model.as_deref(), Some("m"));
    assert_eq!(plan.api_key.as_deref(), Some("k"));
}

#[test]
fn resident_ids_ascend_whatever_the_order_of_the_models() {
    let shown = |id: u64, resident: bool| ModelResidency {
        id: ModelId(id),
        name: None,
        local: true,
        resident,
        estimated_mb: 1,
        idle_for: None,
    };
    let snapshot = ResidencySnapshot {
        models: vec![shown(2, true), shown(1, true)],
    };
    assert_eq!(snapshot.resident(), [ModelId(1), ModelId(2)]);
    let snapshot = ResidencySnapshot {
        models: vec![
            shown(5, true),
            shown(3, false),
            shown(9, true),
            shown(0, true),
            shown(4, true),
        ],
    };
    assert_eq!(
        snapshot.resident(),
        [ModelId(0), ModelId(4), ModelId(5), ModelId(9)]
    );
    assert!(snapshot.is_resident(ModelId(9)));
    assert!(!snapshot.is_resident(ModelId(3)));
    assert!(ResidencySnapshot { models: vec![] }.resident().is_empty());
}

#[test]
fn the_least_recently_used_model_makes_room() {
    let mut runtime = runtime(100);
    let old = load(&mut runtime, 40, 1);
    let young = load(&mut runtime, 40, 2);
    runtime.touch(old, 3);
    let third = load(&mut runtime, 40, 4);
    let shown = runtime.residency(10);
    assert!(shown.is_resident(old));
    assert!(!shown.is_resident(young), "used longest ago");
    assert!(shown.is_resident(third));
    assert_eq!(shown.resident(), [old, third]);
    assert_eq!(shown.resident_mb(), 80);
    assert_eq!(shown.models[0].idle_for, Some(7));
    let stats = runtime.stats(10, &vec![2, 3]);
    assert_eq!(stats.models, 3);
    assert_eq!(stats.resident_models, 2);
    assert_eq!(stats.estimated_resident_mb, 80);
    assert_eq!(stats.active_sessions, 5);
    assert_eq!(stats.evictions, 1);
}

#[test]
fn room_is_never_made_of_what_it_is_made_for() {
    let mut runtime = runtime(10);
    let only = load(&mut runtime, 8, 1);
    assert_eq!(runtime.room(8, Some(only), idle()), Room::Stuck);
    assert_eq!(runtime.room(8, None, idle()), Room::Evict(only));
    assert_eq!(runtime.room(2, None, idle()), Room::Enough);
    assert_eq!(runtime.room(u64::MAX, Some(only), idle()), Room::Stuck);
}

#[test]
fn an_unpinned_budget_is_the_governor_s() {
    let runtime = Runtime::new(config(), settings());
    let says = |mb: u64, can_load: bool| Governor {
        inference_resident_mb: mb,
        can_load,
    };
    assert!(runtime.can_admit(5, says(5, true)));
    assert!(!runtime.can_admit(6, says(5, true)));
    assert!(!runtime.can_admit(5, says(5, false)));
}

#[test]
fn an_evicted_model_is_restored_by_its_next_use() {
    let mut runtime = runtime(100);
    let id = load(&mut runtime, 40, 1);
    assert!(!runtime.restores(id, true), "nothing to do");
    assert!(runtime.unloads(id));
    runtime.unloaded(id);
    assert!(!runtime.is_resident(id));
    assert!(!runtime.unloads(id), "already gone");
    assert_eq!(runtime.stats(1, &vec![]).evictions, 0, "it was asked for");
    assert!(runtime.restores(id, true));
    runtime.restored(id);
    assert!(runtime.is_resident(id));
    // Gone below the runtime: the same restore.
    assert!(runtime.restores(id, false));
    assert!(!runtime.is_resident(id));
}

#[test]
fn a_remote_model_is_always_resident_and_never_counted() {
    let mut runtime = runtime(10);
    let remote = runtime.register(Some("gpt".into()), ModelSourceKind::Remote, None, 0);
    assert!(runtime.is_resident(remote.id()));
    assert!(!runtime.unloads(remote.id()));
    assert!(!runtime.restores(remote.id(), false));
    assert_eq!(runtime.least_recently_used(None), None);
    assert_eq!(runtime.residency(0).resident_mb(), 0);
}

#[test]
fn a_model_of_another_runtime_is_refused() {
    assert!(Runtime::own(ModelId(4), true).is_ok());
    assert_eq!(
        Runtime::own(ModelId(4), false),
        Err(Error::InvalidRequest(
            "model-4 belongs to another runtime".into()
        ))
    );
}

#[test]
fn a_model_is_named_after_its_file() {
    assert_eq!(display_name(Some("qwen".into())).as_deref(), Some("qwen"));
    assert_eq!(display_name(Some(String::new())), None);
    assert_eq!(display_name(None), None);
}

#[test]
fn a_local_engine_carries_the_runtime_s_settings() {
    let runtime = Runtime::builder(config())
        .max_active_sessions(0)
        .settings(Settings {
            ctx_size: Some(512),
        })
        .backend(BackendPlugin {
            name: "mine".into(),
        })
        .build(settings());
    let plan = runtime
        .local_engine("/m.gguf", Some("/p.gguf".into()))
        .build(config(), settings(), None, &machine(16))
        .ok()
        .unwrap();
    assert_eq!(plan.model_path.as_deref(), Some("/m.gguf"));
    assert_eq!(plan.mmproj_path.as_deref(), Some("/p.gguf"));
    assert_eq!(plan.settings.ctx_size, Some(512));
    assert_eq!(plan.config.max_active_chats, 1, "at least one");
    assert_eq!(plan.config.plugins.len(), 1);
}

// ── Engines ─────────────────────────────────────────────────────────────────

#[test]
fn building_with_nothing_to_load_is_an_error_not_a_panic() {
    let err = EngineBuilder::default()
        .build(config(), settings(), None, &machine(16))
        .err()
        .unwrap();
    assert!(
        err.to_string().contains("nothing to load"),
        "error should say what is missing, got: {}",
        err.to_string()
    );
}

#[test]
fn openai_builder_selects_the_external_api_backend() {
    let plan = EngineBuilder::default()
        .openai("https://api.openai.com/v1", "sk-test")
        .build(config(), settings(), None, &machine(16))
        .ok()
        .unwrap();
    assert!(is_url(plan.model_path.as_deref().unwrap()));
    assert_eq!(plan.api_format.as_deref(), Some("openai"));
    assert!(!is_url("/models/m.gguf"));
}

#[test]
fn a_context_that_cannot_be_had_fails_before_anything_starts() {
    let info = sized(8);
    let err = EngineBuilder::default()
        .model("/m.gguf")
        .context(1_000_000)
        .build(config(), settings(), Some(&info), &machine(16))
        .err()
        .unwrap();
    let fit = err.fit().expect("a verdict");
    assert_eq!(fit.verdict, FitVerdict::ContextTooLarge);
    assert_eq!(fit.context, 1_000_000);
    assert_eq!(fit.max_context, info.max_context(&machine(16)));
    let gb = 1024 * 1024 * 1024;
    assert_eq!(fit.model_bytes, 8 * gb);
    assert_eq!(fit.available_bytes, 12 * gb);
    assert_eq!(fit.needed_bytes, 8 * gb + 131_072 * 1_000_000);
}

#[test]
fn an_exact_context_is_honoured_with_or_without_a_header() {
    let info = sized(4);
    for header in [None, Some(&info)] {
        let plan = EngineBuilder::default()
            .model("/m.gguf")
            .context(2048)
            .build(config(), settings(), header, &machine(64))
            .ok()
            .unwrap();
        assert_eq!(plan.settings.ctx_size, Some(2048));
    }
    let plan = EngineBuilder::default()
        .model("/m.gguf")
        .auto_context()
        .build(config(), settings(), Some(&info), &machine(64))
        .ok()
        .unwrap();
    assert_eq!(
        plan.settings.ctx_size,
        Some(info.max_context_for(&machine(64), 3))
    );
}

#[test]
fn a_registered_plugin_is_asked_in_order() {
    assert_eq!(first_claim(&vec![false, true, true]), Some(1));
    assert_eq!(first_claim(&vec![false]), None);
    let plan = EngineBuilder::default()
        .model("/nowhere/model.fake")
        .backend(BackendPlugin {
            name: "fake".into(),
        })
        .build(config(), settings(), None, &machine(16))
        .ok()
        .unwrap();
    assert_eq!(plan.config.plugins[0].name, "fake");
}

#[test]
fn an_engine_that_is_gone_answers_nothing() {
    assert_eq!(load_answer::<()>(None), Err(Error::ControllerGone));
    assert_eq!(
        load_answer::<()>(Some(Err("no".into()))),
        Err(Error::Load("no".into()))
    );
    assert_eq!(load_answer(Some(Ok(3))), Ok(3));
    let failed = service_answer::<u8>(Some(Err("no".into())), "rerank_failed");
    assert_eq!(failed.unwrap_err().code(), Some("rerank_failed"));
    assert_eq!(
        service_answer::<u8>(None, "rerank_failed"),
        Err(Error::ControllerGone)
    );
    assert_eq!(one_vector(vec![1, 2]), Ok(2));
    assert_eq!(
        one_vector::<u8>(vec![]).unwrap_err().code(),
        Some("embedding_failed")
    );
    assert!(stop_answer(false).is_ok());
    assert_eq!(
        stop_answer(true).unwrap_err().code(),
        Some("controller_panicked")
    );
}

// ── Classification ──────────────────────────────────────────────────────────

fn labels(list: &[&str]) -> Vec<String> {
    list.iter().map(|l| l.to_string()).collect()
}

fn classify(list: &[&str]) -> Classify {
    Classify::new("hello").labels(labels(list))
}

#[test]
fn a_label_outside_the_caller_s_set_is_never_returned() {
    let outcome = classify(&["positive", "negative", "neutral"]).label("maybe".into());
    match outcome {
        Err(Error::Extraction { raw, message, .. }) => {
            assert_eq!(raw, "maybe");
            assert!(message.contains(r#"["positive", "negative", "neutral"]"#));
        }
        other => panic!("expected a refusal, got {other:?}"),
    }
}

#[test]
fn the_label_comes_back_spelled_the_way_the_caller_spelled_it() {
    let label = classify(&["positive", "negative"])
        .label("\"positive\"".into())
        .expect("a grammar-shaped reply should classify");
    assert_eq!(label, "positive");
}

#[test]
fn an_unquoted_reply_still_maps_onto_the_caller_s_label() {
    let label = classify(&["positive", "negative"])
        .label("Positive".into())
        .expect("case should not decide whether classification works");
    assert_eq!(
        label, "positive",
        "the caller's spelling is what their code compares against"
    );
}

#[test]
fn fewer_than_two_labels_fails_before_anything_is_generated() {
    let outcome = classify(&["positive"]).request();
    assert_eq!(
        outcome.err(),
        Some(Error::InvalidRequest(
            "classification needs at least two labels to choose between, got 1".into()
        ))
    );
}

#[test]
fn duplicate_labels_are_refused() {
    // Differing only by case: the model cannot distinguish them, so an answer
    // could not be attributed to either.
    let outcome = classify(&["positive", "Positive"]).request();
    assert!(
        matches!(outcome, Err(Error::InvalidRequest(ref m)) if m.contains("distinct")),
        "duplicate labels should be caught before inference"
    );
    // In whatever script.
    let outcome = validate(&labels(&["ÄRGER", "ärger"]));
    assert_eq!(
        outcome,
        Err(Error::InvalidRequest(
            "classification labels must be distinct, got [\"ÄRGER\", \"ärger\"]".into()
        ))
    );
}

#[test]
fn an_empty_label_is_refused() {
    let outcome = classify(&["positive", "  "]).request();
    assert!(matches!(outcome, Err(Error::InvalidRequest(_))));
}

#[test]
fn the_labels_are_sent_as_a_grammar_the_decoder_must_obey() {
    let request = classify(&["positive", "negative"]).request().unwrap();
    let GrammarSpec::JsonSchema(schema) = &request.grammar else {
        panic!("expected a JSON-schema constraint, got {:?}", request.grammar);
    };
    assert_eq!(schema.field("type").as_deref(), Some("string"));
    let value: serde_json::Value = serde_json::from_str(schema.as_str()).unwrap();
    assert_eq!(
        value["enum"],
        serde_json::Value::from(vec!["positive", "negative"]),
        "the grammar must carry exactly the caller's labels"
    );
    let (_, chat) = Inference::asking(request, GenSpec::default()).into_parts();
    assert!(format!("{chat:?}").contains("negative"));
}

#[test]
fn classification_is_deterministic_unless_the_caller_says_otherwise() {
    let request = classify(&["positive", "negative"]).request().unwrap();
    assert!(
        request.greedy,
        "a classifier that samples gives different answers to the same input"
    );
    let request = classify(&["positive", "negative"])
        .sampled()
        .request()
        .unwrap();
    assert!(!request.greedy);
}

#[test]
fn classifying_does_not_touch_a_session_the_caller_holds() {
    let mut session = Session::new();
    session.push_user("hello");
    let before = session.messages().len();
    let request = classify(&["positive", "negative"]).request().unwrap();
    let (own, _) = Inference::asking(request, GenSpec::default()).into_parts();
    assert_ne!(own.id(), session.id());
    assert_eq!(session.messages().len(), before);
}

#[test]
fn a_classification_says_what_the_job_is() {
    let request = classify(&[" positive ", "negative"]).request().unwrap();
    assert_eq!(request.text, "hello");
    assert_eq!(
        request.system,
        "Classify the text into exactly one of these categories: positive, negative.\n\
         Reply with the category and nothing else."
    );
    assert_eq!(request.max_tokens, " positive ".len() * 2);
    let told = classify(&["a", "b"]).instructions("Pick.").request().unwrap();
    assert_eq!(told.system, "Pick.");
    assert_eq!(told.max_tokens, MIN_TOKEN_BUDGET);
}

#[test]
fn an_exact_label_wins_over_one_that_differs_by_case() {
    let set = labels(&["Yes", " yes"]);
    assert_eq!(pick("yes", &set).as_deref(), Some(" yes"));
    assert_eq!(pick(" \"YES\" \n", &set).as_deref(), Some("Yes"));
    assert_eq!(pick("no", &set), None);
}

// ── Extraction ──────────────────────────────────────────────────────────────

#[test]
fn extraction_is_deterministic_unless_the_caller_says_otherwise() {
    let schema = || Json::parse("{\"type\":\"object\"}").unwrap();
    let request = Extract::new("Acme").request(schema());
    assert!(request.greedy);
    assert_eq!(request.max_tokens, DEFAULT_MAX_TOKENS);
    assert!(request.system.starts_with("Read the text"));
    let request = Extract::new("Acme")
        .prompt("Find it.")
        .max_tokens(9)
        .sampled()
        .request(schema());
    assert!(!request.greedy);
    assert_eq!(request.max_tokens, 9);
    assert_eq!(request.system, "Find it.");
}

#[test]
fn the_grammar_sent_is_the_schema_of_the_type_being_decoded() {
    let schema = "{\"properties\":{\"total\":{\"type\":\"number\"},\
                  \"vendor\":{\"type\":\"string\"}},\"type\":\"object\"}";
    let request = Extract::new("Acme").request(Json::parse(schema).unwrap());
    assert_eq!(request.text, "Acme");
    let GrammarSpec::JsonSchema(sent) = request.grammar else {
        panic!("expected a JSON-schema constraint, got {:?}", request.grammar);
    };
    assert_eq!(sent.as_str(), schema);
    let read: serde_json::Value = serde_json::from_str(sent.as_str()).unwrap();
    let properties = &read["properties"];
    assert!(
        properties.get("vendor").is_some() && properties.get("total").is_some(),
        "the schema must describe the fields, got {sent:?}"
    );
}

#[test]
fn the_two_failure_kinds_carry_different_codes() {
    let decode = undecoded("Invoice", "missing field", "{}".into());
    let backend = Error::Generation {
        code: "generation_error".into(),
        message: "down".into(),
    };
    assert_ne!(decode.code(), backend.code());
    assert_eq!(decoded_part(" {} \n"), "{}");
}

// ── JSON ────────────────────────────────────────────────────────────────────

#[test]
fn json_is_kept_compact() {
    let json = Json::parse(" { \"b\" : [ 1 , 2 ] , \"a\" : null } ").unwrap();
    assert_eq!(json.as_str(), "{\"a\":null,\"b\":[1,2]}");
    assert_eq!(Json::parse("{"), None);
    assert!(Json::parse("[1]").unwrap().same(&Json::parse("[ 1 ]").unwrap()));
}

#[test]
fn json_values_are_equal_as_values() {
    let json = |text: &str| Json::parse(text).unwrap();
    assert_ne!(json("-0.0").as_str(), json("0.0").as_str());
    assert!(json("-0.0").same(&json("0.0")));
    assert_eq!(json("{\"a\":[-0.0]}"), json("{\"a\":[0.0]}"));
    assert!(!json("0").same(&json("0.0")), "an integer is no float");
    assert!(!json("0").same(&json("-0.0")));
    assert_ne!(json("1"), json("2"));
    assert_ne!(json("\"1\""), json("1"));
}

#[test]
fn a_json_string_is_quoted_and_read_back() {
    let quoted = Json::string("a\"b\n");
    assert_eq!(quoted.as_str(), "\"a\\\"b\\n\"");
    assert_eq!(text_of_json(quoted.as_str()).as_deref(), Some("a\"b\n"));
    assert_eq!(quoted.to_text().as_deref(), Some("a\"b\n"));
    assert_eq!(text_of_json("3"), None);
    assert_eq!(Json::lenient("not json"), Json::string("not json"));
}

#[test]
fn a_field_is_read_only_where_it_is_text() {
    let json = Json::parse("{\"a\":\"x\",\"b\":1}").unwrap();
    assert_eq!(json.field("a").as_deref(), Some("x"));
    assert_eq!(json.field("b"), None);
    assert_eq!(json.field("c"), None);
}

// ── Text ────────────────────────────────────────────────────────────────────

#[test]
fn text_is_read_and_written_whole() {
    let chars = chars_of("aé漢");
    assert_eq!(chars, ['a', 'é', '漢']);
    assert_eq!(string_of(&chars), "aé漢");
    assert_eq!(string_of(&[]), "");
    assert!(same_text("é", "é"));
    assert!(starts_with("hf:x", "hf:"));
    assert_eq!(decimal_text(0), "0");
    assert_eq!(decimal_text(u64::MAX), "18446744073709551615");
}

#[test]
fn text_is_trimmed_and_ordered_as_std_does() {
    let trimmed = |s: &str| string_of(&trim(&chars_of(s)));
    for s in ["", " a b ", "\u{3000}x\u{a0}", "\n\t"] {
        assert_eq!(trimmed(s), s.trim());
    }
    assert_eq!(string_of(&lower_chars(&chars_of("ABÉ"))), "abÉ");
    for (a, b) in [("a", "b"), ("b", "a"), ("a", "ab"), ("é", "z"), ("", "")] {
        assert_eq!(no_later(&chars_of(a), &chars_of(b)), a <= b);
    }
    let (head, tail) = split_once(&chars_of("a:b:c"), ':').unwrap();
    assert_eq!(string_of(&head), "a");
    assert_eq!(string_of(&tail), "b:c");
}

#[test]
fn a_finish_has_the_name_it_prints() {
    for finish in [Finish::Eos, Finish::Stopped, Finish::ToolDepthReached] {
        assert_eq!(finish.name(), format!("{finish:?}"));
    }
    assert_eq!(Completion::default().finish, Finish::Eos);
    assert_eq!(Message::user("x").text(), "x");
}

// ── Small parts ─────────────────────────────────────────────────────────────

#[test]
fn texts_are_joined_with_what_stands_between() {
    let texts = |list: &[&str]| list.iter().map(|t| t.to_string()).collect::<Vec<_>>();
    assert_eq!(join_texts(&texts(&["a", "b", "c"]), ", "), "a, b, c");
    assert_eq!(join_texts(&texts(&["a"]), ", "), "a");
    assert_eq!(join_texts(&texts(&[]), ", "), "");
    assert!(repeats(&texts(&["a", "b", "a"])));
    assert!(!repeats(&texts(&["a", "b", "A"])));
}

#[test]
fn a_repeated_call_is_named_with_its_count() {
    assert_eq!(
        repeating_name("\"read\"", 3),
        "GaveUp(RepeatingCall { tool: \"read\", times: 3 })"
    );
}

#[test]
fn a_model_generates_from_what_it_is_given() {
    let model = Model::new(ModelId(0), None, ModelSourceKind::LocalFile, None);
    let staged = model
        .generate(Input::new().text("Why is the sky blue?"))
        .system("Be terse.")
        .max_tokens(12)
        .prepare();
    assert_eq!(staged.message.text(), "Why is the sky blue?");
    assert_eq!(staged.session.system(), Some("Be terse."));
    assert!(staged.session.is_empty(), "nothing is recorded yet");
    assert_eq!(staged.options.max_tokens, Some(12));
}

#[test]
fn an_engine_may_hold_only_a_reranker() {
    let plan = EngineBuilder::default()
        .reranker("/models/rank.gguf")
        .build(config(), settings(), None, &machine(16))
        .unwrap_or_else(|e| panic!("{}", e.to_string()));
    assert_eq!(plan.reranker_path.as_deref(), Some("/models/rank.gguf"));
    assert_eq!(plan.model_path, None);
    assert_eq!(plan.embedder_path, None);
}

#[test]
fn a_header_is_read_or_says_why_not() {
    let header = |context: Option<u64>| Header {
        architecture: Some("qwen3".into()),
        quantization: Some("Q4_K_M".into()),
        metadata: ModelMetadata {
            context_length: context,
            parameter_count: Some(600_000_000),
            ..ModelMetadata::default()
        },
    };
    let info = ModelInfo::read("m.gguf", Ok(7), Ok(Some(header(Some(40_960))))).unwrap();
    assert_eq!(info.file_bytes, 7);
    assert_eq!(info.architecture.as_deref(), Some("qwen3"));
    assert_eq!(info.quantization.as_deref(), Some("Q4_K_M"));
    assert_eq!(info.parameters, Some(600_000_000));
    assert_eq!(info.train_context, Some(40_960));
    assert!(!info.supports_tools, "not where the header says nothing");

    let wide = ModelInfo::read("m.gguf", Ok(7), Ok(Some(header(Some(1 << 33 | 5))))).unwrap();
    assert_eq!(wide.train_context, Some(5), "what a context counter holds");

    let gone = ModelInfo::read("m.gguf", Err("no such file".into()), Ok(None)).unwrap_err();
    assert_eq!(gone, Error::Load("cannot read m.gguf: no such file".into()));
    let bare = ModelInfo::read("m.gguf", Ok(7), Ok(None)).unwrap_err();
    assert_eq!(
        bare,
        Error::Load("m.gguf has no usable architecture metadata".into())
    );
    let broken = ModelInfo::read("m.gguf", Ok(7), Err(Error::Load("not a GGUF".into())));
    assert_eq!(broken.unwrap_err(), Error::Load("not a GGUF".into()));
}
