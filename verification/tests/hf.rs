use gen2::error::Error;
use gen2::hf::{is_reference, parse_reference, HfError, HfModel, Parsed};
use gen2::hf_files::{
    choose_gguf, choose_mmproj, list_files, quant_of, shard_of, Choice, GgufFile,
};
use gen2::hf_resolve::{
    anchored, cache_dir_from, join, pinned_snapshot, reference_from_path, repo_dir_name,
    resolve_model_path, tidy, CacheEnv, Fetched, HfDownload, HfResolved, HubFault, Plan, Progress,
};

fn parse(s: &str) -> Parsed {
    parse_reference(s).unwrap_or_else(|e| panic!("{s}: {}", e.to_string()))
}

fn reject(s: &str) -> String {
    match parse_reference(s) {
        Ok(p) => panic!("{s} parsed as {p:?}"),
        Err(HfError::InvalidReference { reference, reason }) => {
            assert_eq!(reference, s);
            reason
        }
        Err(e) => panic!("{s}: wrong error {}", e.to_string()),
    }
}

// ── The grammar ─────────────────────────────────────────────────────────────

#[test]
fn bare_repo_means_default_quant() {
    let p = parse("hf:unsloth/Qwen3-0.6B-GGUF");
    assert_eq!(p.repo, "unsloth/Qwen3-0.6B-GGUF");
    assert_eq!(p.quant, None);
    assert_eq!(p.file, None);
}

#[test]
fn a_tag_after_the_colon_is_a_quant() {
    let p = parse("hf:unsloth/Qwen3-0.6B-GGUF:Q8_0");
    assert_eq!(p.quant.as_deref(), Some("Q8_0"));
    assert_eq!(p.file, None);
    let p = parse("hf:unsloth/Qwen3-0.6B-GGUF:UD-Q4_K_XL");
    assert_eq!(p.quant.as_deref(), Some("UD-Q4_K_XL"));
    // Case is kept as typed; matching is case-insensitive later.
    assert_eq!(parse("hf:a/b:q4_k_m").quant.as_deref(), Some("q4_k_m"));
}

#[test]
fn a_gguf_name_after_the_colon_is_a_file() {
    let p = parse("hf:unsloth/Qwen3-0.6B-GGUF:Qwen3-0.6B-Q5_K_M.gguf");
    assert_eq!(p.file.as_deref(), Some("Qwen3-0.6B-Q5_K_M.gguf"));
    assert_eq!(p.quant, None);
    // A file in a subdirectory, and upper-case extension.
    let p = parse("hf:a/b:Q4_K_M/model-00001-of-00002.GGUF");
    assert_eq!(p.file.as_deref(), Some("Q4_K_M/model-00001-of-00002.GGUF"));
}

#[test]
fn courtesy_forms_are_accepted() {
    assert_eq!(parse("hf://a/b").repo, "a/b");
    assert_eq!(parse("hf.co/a/b:Q8_0").quant.as_deref(), Some("Q8_0"));
    assert_eq!(
        parse("https://huggingface.co/unsloth/Qwen3-0.6B-GGUF").repo,
        "unsloth/Qwen3-0.6B-GGUF"
    );
    assert_eq!(parse("https://huggingface.co/a/b/").repo, "a/b");
    assert_eq!(parse("https://huggingface.co/a/b/tree/main").repo, "a/b");
    assert_eq!(parse("https://hf.co/a/b").repo, "a/b");
    let p = parse("https://huggingface.co/a/b/resolve/main/m-Q4_K_M.gguf?download=true");
    assert_eq!(p.file.as_deref(), Some("m-Q4_K_M.gguf"));
    let p = parse("https://huggingface.co/a/b/blob/main/sub/m.gguf");
    assert_eq!(p.file.as_deref(), Some("sub/m.gguf"));
}

#[test]
fn bad_forms_are_rejected_with_a_reason() {
    assert!(reject("hf:").contains("nothing after"));
    assert!(reject("hf:owner").contains("owner/name"));
    assert!(reject("hf:owner/").contains("owner/name"));
    assert!(reject("hf:/repo").contains("owner/name"));
    assert!(reject("hf:owner/repo/extra").contains("after a colon"));
    assert!(reject("hf:owner/repo:").contains("nothing after the colon"));
    assert!(reject("hf:owner/repo:Q4:Q5").contains("quantization tag"));
    assert!(reject("hf:owner/repo:../x.gguf").contains("`..`"));
    assert!(reject("hf:owner/repo:/abs.gguf").contains("leading `/`"));
    assert!(reject("hf:owner/repo:a b.gguf").contains("whitespace"));
    assert!(reject("hf:ow ner/repo").contains("letters, digits"));
    assert!(reject(" hf:a/b").contains("whitespace"));
    assert!(reject("/models/model.gguf").contains("`hf:`"));
    assert!(reject("https://huggingface.co/a").contains("owner/name"));
    assert!(reject("https://huggingface.co/a/b/resolve/main/README.md").contains("not a .gguf"));
    assert!(reject("https://huggingface.co/a/b/discussions/1").contains("resolve"));
    // The message a caller that loads it sees carries the form.
    let e = parse_reference("hf:x").unwrap_err().into_error();
    assert!(
        e.to_string().contains("hf:owner/repo:QUANT"),
        "{}",
        e.to_string()
    );
}

#[test]
fn only_references_trigger_the_resolver() {
    assert!(is_reference("hf:a/b"));
    assert!(is_reference("hf://a/b"));
    assert!(is_reference("https://huggingface.co/a/b"));
    assert!(!is_reference("/models/hf:a/b.gguf"));
    assert!(!is_reference("./hf/model.gguf"));
    assert!(!is_reference("C:\\models\\model.gguf"));
    assert!(!is_reference("http://localhost:11434/v1"));
    assert_eq!(reference_from_path("/models/model.gguf"), None);
    assert_eq!(reference_from_path("hf:a/b"), Some("hf:a/b"));
}

#[test]
fn typed_form_round_trips_the_reference() {
    let m = HfModel::parse("hf:a/b:Q8_0").unwrap();
    assert_eq!(m.reference(), "hf:a/b:Q8_0");
    assert_eq!(HfModel::new("a/b").reference(), "hf:a/b");
    assert_eq!(
        HfModel::new("a/b").file("x.gguf").reference(),
        "hf:a/b:x.gguf"
    );
    let m: HfModel = "hf:a/b".parse().unwrap();
    assert_eq!(m.repo, "a/b");
    assert!(m.described(false).contains("a/b"));
}

// ── Choosing ────────────────────────────────────────────────────────────────

fn files(list: &[(&str, u64)]) -> Vec<GgufFile> {
    list.iter()
        .map(|(n, s)| GgufFile {
            name: n.to_string(),
            size: Some(*s),
        })
        .collect()
}

/// A listing as a real repo has it.
fn qwen() -> Vec<GgufFile> {
    files(&[
        ("README.md", 1_000),
        (".gitattributes", 100),
        ("Qwen3-0.6B-BF16.gguf", 1_200_000_000),
        ("Qwen3-0.6B-Q8_0.gguf", 639_000_000),
        ("Qwen3-0.6B-Q4_K_M.gguf", 397_000_000),
        ("Qwen3-0.6B-UD-Q4_K_XL.gguf", 405_000_000),
        ("Qwen3-0.6B-Q5_K_M.gguf", 444_000_000),
        ("Qwen3-0.6B-Q4_0.gguf", 382_000_000),
    ])
}

#[test]
fn no_tag_picks_q4_k_m() {
    assert_eq!(
        choose_gguf(&qwen(), None),
        Choice::Exact("Qwen3-0.6B-Q4_K_M.gguf".into())
    );
}

#[test]
fn a_tag_matches_case_insensitively_and_whole() {
    assert_eq!(
        choose_gguf(&qwen(), Some("q8_0")),
        Choice::Exact("Qwen3-0.6B-Q8_0.gguf".into())
    );
    // `Q4_K` is not a prefix match for Q4_K_M: it is a tag of its own.
    assert!(matches!(
        choose_gguf(&qwen(), Some("Q4_K")),
        Choice::QuantMissing(_)
    ));
    assert_eq!(
        choose_gguf(&qwen(), Some("UD-Q4_K_XL")),
        Choice::Exact("Qwen3-0.6B-UD-Q4_K_XL.gguf".into())
    );
    // A dotted name.
    let f = files(&[("llama-2-7b.Q4_K_M.gguf", 4), ("llama-2-7b.Q2_K.gguf", 2)]);
    assert_eq!(
        choose_gguf(&f, Some("Q2_K")),
        Choice::Exact("llama-2-7b.Q2_K.gguf".into())
    );
}

#[test]
fn a_missing_tag_lists_what_the_repo_has() {
    let Choice::QuantMissing(available) = choose_gguf(&qwen(), Some("Q6_K")) else {
        panic!("expected QuantMissing");
    };
    assert_eq!(
        available,
        vec!["BF16", "Q4_0", "Q4_K_M", "Q5_K_M", "Q8_0", "UD-Q4_K_XL"]
    );
    let e = HfError::QuantNotFound {
        repo: "a/b".into(),
        quant: "Q6_K".into(),
        available,
    };
    assert!(
        e.to_string()
            .contains("no GGUF tagged `Q6_K`; it has: BF16, Q4_0"),
        "{}",
        e.to_string()
    );
}

#[test]
fn fallback_order_is_q4_then_smallest() {
    // No Q4_K_M: the smallest Q4-anything.
    let f = files(&[
        ("m-Q8_0.gguf", 8),
        ("m-Q4_K_S.gguf", 4),
        ("m-Q4_0.gguf", 3),
        ("m-Q2_K.gguf", 2),
    ]);
    assert_eq!(
        choose_gguf(&f, None),
        Choice::Fallback("m-Q4_0.gguf".into())
    );
    // No Q4 at all: the smallest GGUF.
    let f = files(&[("m-Q8_0.gguf", 8), ("m-Q5_K_M.gguf", 5), ("m-F16.gguf", 16)]);
    assert_eq!(
        choose_gguf(&f, None),
        Choice::Fallback("m-Q5_K_M.gguf".into())
    );
    // Unknown sizes sort last; ties by name.
    let f = vec![
        GgufFile {
            name: "b.gguf".into(),
            size: None,
        },
        GgufFile {
            name: "a.gguf".into(),
            size: None,
        },
    ];
    assert_eq!(choose_gguf(&f, None), Choice::Fallback("a.gguf".into()));
}

#[test]
fn projectors_and_later_shards_are_never_the_model() {
    let f = files(&[
        ("mmproj-F16.gguf", 200),
        ("mmproj-BF16.gguf", 200),
        ("m-Q4_K_M-00002-of-00002.gguf", 100),
        ("m-Q4_K_M-00001-of-00002.gguf", 300),
        ("README.md", 1),
    ]);
    assert_eq!(
        choose_gguf(&f, None),
        Choice::Exact("m-Q4_K_M-00001-of-00002.gguf".into())
    );
    assert_eq!(choose_mmproj(&f).as_deref(), Some("mmproj-F16.gguf"));
    assert_eq!(
        choose_gguf(&files(&[("README.md", 1), ("mmproj-F16.gguf", 2)]), None),
        Choice::NoGguf
    );
    assert_eq!(choose_mmproj(&qwen()), None);
    // Without an F16 projector, the first by name.
    let f = files(&[("mmproj-Q8_0.gguf", 1), ("mmproj-BF16.gguf", 1)]);
    assert_eq!(choose_mmproj(&f).as_deref(), Some("mmproj-BF16.gguf"));
    // Files in subdirectories count by their own name.
    let f = files(&[("Q4_K_M/m-Q4_K_M.gguf", 1), ("mmproj/mmproj-F16.gguf", 1)]);
    assert_eq!(
        choose_gguf(&f, None),
        Choice::Exact("Q4_K_M/m-Q4_K_M.gguf".into())
    );
    assert_eq!(choose_mmproj(&f).as_deref(), Some("mmproj/mmproj-F16.gguf"));
}

#[test]
fn the_tag_of_a_file_is_its_last_quant_segment() {
    assert_eq!(
        quant_of("Qwen3-0.6B-Q4_K_M.gguf").as_deref(),
        Some("Q4_K_M")
    );
    assert_eq!(
        quant_of("Qwen3-0.6B-UD-Q4_K_XL.gguf").as_deref(),
        Some("UD-Q4_K_XL")
    );
    assert_eq!(quant_of("llama-2-7b.Q2_K.gguf").as_deref(), Some("Q2_K"));
    assert_eq!(quant_of("m-IQ3_XXS.gguf").as_deref(), Some("IQ3_XXS"));
    assert_eq!(quant_of("m-bf16.gguf").as_deref(), Some("bf16"));
    assert_eq!(
        quant_of("m-Q4_K_M-00001-of-00002.gguf").as_deref(),
        Some("Q4_K_M")
    );
    assert_eq!(quant_of("model.gguf"), None);
    assert_eq!(quant_of("Llama-3.2-1B-Instruct.gguf"), None);
}

// ── The cache ───────────────────────────────────────────────────────────────

fn env_of(pairs: &[(&str, &str)]) -> CacheEnv {
    let var = |k: &str| {
        pairs
            .iter()
            .find(|(n, _)| *n == k)
            .map(|(_, v)| v.to_string())
    };
    CacheEnv {
        models_dir: var("GEN2_MODELS_DIR"),
        hub_cache: var("HF_HUB_CACHE"),
        old_hub_cache: var("HUGGINGFACE_HUB_CACHE"),
        home: var("HF_HOME"),
    }
}

#[test]
fn cache_dir_order_is_gen2_then_hf_then_platform() {
    let platform = Some("/plat");
    let all = [
        ("GEN2_MODELS_DIR", "/g"),
        ("HF_HUB_CACHE", "/hub"),
        ("HUGGINGFACE_HUB_CACHE", "/old"),
        ("HF_HOME", "/home"),
    ];
    assert_eq!(cache_dir_from(&env_of(&all), platform, "/tmp"), "/g");
    assert_eq!(cache_dir_from(&env_of(&all[1..]), platform, "/tmp"), "/hub");
    assert_eq!(cache_dir_from(&env_of(&all[2..]), platform, "/tmp"), "/old");
    assert_eq!(
        cache_dir_from(&env_of(&all[3..]), platform, "/tmp"),
        "/home/hub"
    );
    assert_eq!(
        cache_dir_from(&env_of(&[]), platform, "/tmp"),
        "/plat/gen2/hf"
    );
    let fallback = cache_dir_from(&env_of(&[]), None, "/tmp");
    assert!(fallback.ends_with("gen2/hf"), "{fallback}");
    assert!(fallback.starts_with('/'));
}

#[test]
fn a_relative_models_dir_is_anchored_to_the_cwd() {
    let dir = cache_dir_from(&env_of(&[("GEN2_MODELS_DIR", "models")]), None, "/tmp");
    let dir = anchored(&dir, false, Some("/work"));
    assert!(dir.starts_with('/'), "{dir}");
    assert!(dir.ends_with("models"));
    assert_eq!(dir, "/work/models");
    // An absolute one stays; so does a relative one with nowhere to put it.
    assert_eq!(anchored("/g", true, Some("/work")), "/g");
    assert_eq!(anchored("models", false, None), "models");
}

#[test]
fn the_cache_lists_gguf_files_with_sizes_through_symlinks() {
    // In order of name, each once, as they come off the disk.
    let got = tidy(files(&[
        ("sub/mmproj-F16.gguf", 20),
        ("Qwen3-0.6B-Q8_0.gguf", 80),
        ("Qwen3-0.6B-Q4_K_M.gguf", 40),
        ("Qwen3-0.6B-Q8_0.gguf", 81),
    ]));
    assert_eq!(
        got,
        files(&[
            ("Qwen3-0.6B-Q4_K_M.gguf", 40),
            ("Qwen3-0.6B-Q8_0.gguf", 80),
            ("sub/mmproj-F16.gguf", 20),
        ])
    );
    assert!(tidy(vec![]).is_empty());
    assert_eq!(
        repo_dir_name("unsloth/Qwen3-0.6B-GGUF"),
        "models--unsloth--Qwen3-0.6B-GGUF"
    );
    assert_eq!(pinned_snapshot(Some("abc123\n")).as_deref(), Some("abc123"));
    assert_eq!(pinned_snapshot(Some(" \n")), None);
    assert_eq!(pinned_snapshot(None), None);
}

#[test]
fn a_warm_cache_answers_without_the_network() {
    let cache = files(&[("Qwen3-0.6B-Q4_K_M.gguf", 40), ("Qwen3-0.6B-Q8_0.gguf", 80)]);
    let model = HfModel::parse("hf:unsloth/Qwen3-0.6B-GGUF").unwrap();
    let resolved = model.resolve_from_cache(&cache).unwrap();
    assert_eq!(resolved.file, "Qwen3-0.6B-Q4_K_M.gguf");
    assert!(resolved.from_cache);
    assert_eq!(model.plan(&cache), Plan::Known(resolved.clone()));
    let download = HfDownload::gathered(
        resolved,
        Fetched {
            path: "snapshots/abc123/Qwen3-0.6B-Q4_K_M.gguf".into(),
            hit: true,
        },
        None,
    );
    assert!(download.cache_hit);
    assert!(download
        .model
        .ends_with("snapshots/abc123/Qwen3-0.6B-Q4_K_M.gguf"));
    assert_eq!(download.mmproj, None);

    // The typed and the string forms agree.
    let by_tag = HfModel::new("unsloth/Qwen3-0.6B-GGUF")
        .quant("q8_0")
        .resolve_from_cache(&cache)
        .unwrap();
    assert_eq!(by_tag.file, "Qwen3-0.6B-Q8_0.gguf");
    let by_file = HfModel::new("unsloth/Qwen3-0.6B-GGUF")
        .file("Qwen3-0.6B-Q8_0.gguf")
        .resolve_from_cache(&cache)
        .unwrap();
    assert_eq!(by_file.file, by_tag.file);
}

#[test]
fn the_cache_never_answers_with_a_fallback_tier() {
    // Only Q8_0 cached: the default must go to the Hub for Q4_K_M rather than
    // quietly load the bigger file.
    let cache = files(&[("Qwen3-0.6B-Q8_0.gguf", 80)]);
    let model = HfModel::parse("hf:unsloth/Qwen3-0.6B-GGUF").unwrap();
    assert_eq!(model.resolve_from_cache(&cache), None);
    // Likewise a tag the cache lacks, and a file it lacks.
    let model = HfModel::new("unsloth/Qwen3-0.6B-GGUF").quant("Q5_K_M");
    assert_eq!(model.resolve_from_cache(&cache), None);
    let model = HfModel::new("unsloth/Qwen3-0.6B-GGUF").file("other.gguf");
    assert_eq!(model.resolve_from_cache(&cache), None);
    assert_eq!(model.plan(&cache), Plan::List);
}

#[test]
fn a_cached_projector_rides_along() {
    let cache = files(&[("m-Q4_K_M.gguf", 40), ("mmproj-F16.gguf", 20)]);
    let base = HfModel::new("unsloth/Qwen3-0.6B-GGUF");
    let d = base.clone().resolve_from_cache(&cache).unwrap();
    assert!(d
        .mmproj
        .as_ref()
        .is_some_and(|p| p.ends_with("mmproj-F16.gguf")));
    assert_eq!(
        base.clone()
            .without_mmproj()
            .resolve_from_cache(&cache)
            .unwrap()
            .mmproj,
        None
    );
    assert!(base
        .clone()
        .mmproj("mmproj-F16.gguf")
        .resolve_from_cache(&cache)
        .unwrap()
        .mmproj
        .is_some());
    // A named projector that is not cached means the cache cannot answer.
    assert_eq!(
        base.mmproj("mmproj-BF16.gguf").resolve_from_cache(&cache),
        None
    );
}

// ── Errors ──────────────────────────────────────────────────────────────────

#[test]
fn every_error_says_what_to_do_and_maps_to_load() {
    let cases: Vec<(HfError, &str)> = vec![
        (
            HfError::RepoNotFound { repo: "a/b".into() },
            "no repo `a/b`",
        ),
        (
            HfError::FileNotFound {
                repo: "a/b".into(),
                file: "x.gguf".into(),
            },
            "no file `x.gguf`",
        ),
        (HfError::NoGguf { repo: "a/b".into() }, "holds no GGUF"),
        (
            HfError::Gated {
                repo: "a/b".into(),
                had_token: false,
            },
            "set HF_TOKEN",
        ),
        (
            HfError::Gated {
                repo: "a/b".into(),
                had_token: true,
            },
            "refused the one sent",
        ),
        (
            HfError::RateLimited {
                retry_after: Some(30),
            },
            "retry in 30s",
        ),
        (HfError::RateLimited { retry_after: None }, "HF_TOKEN lifts"),
        (
            HfError::Network {
                repo: "a/b".into(),
                message: "dns".into(),
                cache_dir: "/c".into(),
            },
            "could not reach the Hugging Face Hub for `a/b` (dns), and nothing usable for it is cached under /c",
        ),
        (
            HfError::Cache {
                path: "/c".into(),
                message: "read-only".into(),
            },
            "model cache at /c: read-only",
        ),
        (
            HfError::FeatureDisabled {
                reference: "hf:a/b".into(),
            },
            "`hf` feature off",
        ),
        (
            HfError::Other {
                repo: "a/b".into(),
                message: "odd".into(),
            },
            "`a/b`: odd",
        ),
    ];
    for (err, needle) in cases {
        let text = err.to_string();
        assert!(text.contains(needle), "{text:?} lacks {needle:?}");
        let mapped: Error = err.clone().into_error();
        match mapped {
            Error::Load(msg) => assert_eq!(msg, text),
            other => panic!("{err:?} mapped to {other:?}"),
        }
    }
}

#[test]
fn a_plain_path_never_touches_the_resolver() {
    assert!(resolve_model_path("/models/model.gguf").unwrap().is_none());
    assert!(resolve_model_path("relative.gguf").unwrap().is_none());
    // And a malformed reference fails before any I/O.
    let err = resolve_model_path("hf:nope").err().unwrap();
    assert!(
        matches!(err, Error::Load(ref m) if m.contains("owner/name")),
        "{}",
        err.to_string()
    );
}

#[test]
fn progress_fraction_needs_a_total() {
    let p = Progress {
        file: "f".into(),
        bytes: 50,
        total: 200,
    };
    assert_eq!(p.ratio(), Some((50, 200)));
    assert_eq!(
        p.ratio().map(|(bytes, total)| bytes as f64 / total as f64),
        Some(0.25)
    );
    let p = Progress {
        file: "f".into(),
        bytes: 50,
        total: 0,
    };
    assert_eq!(p.ratio(), None);
}

// ── More of the same ────────────────────────────────────────────────────────

#[test]
fn a_shard_is_found_by_its_numbers() {
    let shard = shard_of("sub/m-Q4_K_M-00002-of-00003.gguf").unwrap();
    assert_eq!(shard.before, "m-Q4_K_M");
    assert_eq!(shard.number.as_deref(), Some("00002"));
    assert_eq!(shard_of("m-Q4_K_M.gguf"), None);
    assert_eq!(shard_of("m-2-of-3.gguf"), None);
}

#[test]
fn a_choice_does_not_depend_on_the_order_of_the_listing() {
    let mut turned = qwen();
    turned.reverse();
    for quant in [None, Some("Q8_0"), Some("Q6_K")] {
        assert_eq!(choose_gguf(&turned, quant), choose_gguf(&qwen(), quant));
    }
    assert!(list_files(&qwen()).iter().any(|f| f.is_candidate()));
}

#[test]
fn every_parsed_reference_is_written_back() {
    for reference in [
        "hf:a/b",
        "hf:a/b:Q8_0",
        "hf:a/b:sub/x.gguf",
        "hf:unsloth/Qwen3-0.6B-GGUF:UD-Q4_K_XL",
    ] {
        let model = HfModel::parse(reference).unwrap();
        assert_eq!(model.reference(), reference);
        assert!(is_reference(reference));
    }
}

#[test]
fn a_listing_answers_or_says_why_not() {
    let listing = qwen();
    let model = HfModel::new("a/b");
    let chosen = model.choose_from(&listing).unwrap();
    assert_eq!(
        chosen,
        HfResolved {
            repo: "a/b".into(),
            file: "Qwen3-0.6B-Q4_K_M.gguf".into(),
            mmproj: None,
            from_cache: false,
        }
    );
    assert_eq!(
        HfModel::new("a/b").choose_from(&files(&[("README.md", 1)])),
        Err(HfError::NoGguf { repo: "a/b".into() })
    );
    assert_eq!(
        HfModel::new("a/b").file("x.gguf").choose_from(&listing),
        Err(HfError::FileNotFound {
            repo: "a/b".into(),
            file: "x.gguf".into(),
        })
    );
    assert!(matches!(
        HfModel::new("a/b").quant("Q6_K").choose_from(&listing),
        Err(HfError::QuantNotFound { quant, .. }) if quant == "Q6_K"
    ));
}

#[test]
fn a_file_and_its_projector_named_outright_need_no_listing() {
    let model = HfModel::new("a/b").file("x.gguf").without_mmproj();
    let Plan::Known(known) = model.plan(&[]) else {
        panic!("nothing is left to choose");
    };
    assert_eq!(known.file, "x.gguf");
    assert!(!known.from_cache);
    assert_eq!(HfModel::new("a/b").file("x.gguf").plan(&[]), Plan::List);
}

#[test]
fn a_model_s_own_token_wins_and_is_never_shown() {
    let model = HfModel::new("a/b").token("secret");
    assert_eq!(model.sent_token(Some("env")).as_deref(), Some("secret"));
    assert_eq!(
        HfModel::new("a/b").sent_token(Some("env")).as_deref(),
        Some("env")
    );
    assert_eq!(HfModel::new("a/b").sent_token(Some("")), None);
    assert!(!model.described(false).contains("secret"));
    assert_eq!(
        model.described(true),
        HfModel::new("a/b").token("other").described(true)
    );
    assert_eq!(
        HfModel::new("a/b").quant("Q8_0").described(false),
        "HfModel { repo: \"a/b\", quant: Some(\"Q8_0\"), file: None, mmproj: Auto, \
         cache_dir: None, token: None, progress: false }"
    );
    assert_eq!(
        model.file("x.gguf").described(true),
        "HfModel { repo: \"a/b\", quant: None, file: Some(\"x.gguf\"), mmproj: Auto, \
         cache_dir: None, token: Some(\"…\"), progress: true }"
    );
}

#[test]
fn what_the_hub_says_becomes_what_to_do() {
    let model = HfModel::new("a/b");
    let told = |fault: HubFault, sent: bool| model.map_error(fault, "/c", sent);
    assert_eq!(
        told(HubFault::RepoNotFound, false),
        HfError::RepoNotFound { repo: "a/b".into() }
    );
    assert_eq!(
        told(HubFault::AuthRequired, false),
        HfError::Gated {
            repo: "a/b".into(),
            had_token: false,
        }
    );
    assert_eq!(
        told(HubFault::Forbidden, true),
        HfError::Gated {
            repo: "a/b".into(),
            had_token: true,
        }
    );
    assert_eq!(
        told(
            HubFault::RateLimited {
                retry_after: Some(3)
            },
            false
        ),
        HfError::RateLimited {
            retry_after: Some(3)
        }
    );
    assert_eq!(
        told(
            HubFault::EntryNotFound {
                path: "x.gguf".into()
            },
            false
        ),
        HfError::FileNotFound {
            repo: "a/b".into(),
            file: "x.gguf".into(),
        }
    );
    assert_eq!(
        told(
            HubFault::Request {
                message: "dns".into()
            },
            false
        ),
        HfError::Network {
            repo: "a/b".into(),
            message: "dns".into(),
            cache_dir: "/c".into(),
        }
    );
    assert_eq!(
        told(
            HubFault::Io {
                message: "full".into()
            },
            false
        ),
        HfError::Cache {
            path: "/c".into(),
            message: "full".into(),
        }
    );
    assert_eq!(
        told(
            HubFault::Other {
                message: "odd".into()
            },
            false
        ),
        HfError::Other {
            repo: "a/b".into(),
            message: "odd".into(),
        }
    );
}

#[test]
fn a_download_is_a_hit_only_when_nothing_moved() {
    let resolved = HfResolved {
        repo: "a/b".into(),
        file: "m.gguf".into(),
        mmproj: Some("p.gguf".into()),
        from_cache: false,
    };
    let fetched = |path: &str, hit: bool| Fetched {
        path: path.into(),
        hit,
    };
    let both = HfDownload::gathered(
        resolved.clone(),
        fetched("/m", true),
        Some(fetched("/p", false)),
    );
    assert!(!both.cache_hit);
    assert_eq!(both.mmproj.as_deref(), Some("/p"));
    let hit = HfDownload::gathered(resolved, fetched("/m", true), Some(fetched("/p", true)));
    assert!(hit.cache_hit);
}

#[test]
fn progress_that_says_nothing_is_not_reported() {
    assert_eq!(Progress::of("f", 0, 0), None);
    assert_eq!(
        Progress::of("f", 0, 9),
        Some(Progress {
            file: "f".into(),
            bytes: 0,
            total: 9
        })
    );
}

#[test]
fn paths_join_as_they_read() {
    assert_eq!(join("/a", "b"), "/a/b");
    assert_eq!(join("/a/", "b"), "/a/b");
    assert_eq!(join("", "b"), "b");
}

#[test]
fn a_model_keeps_the_cache_it_was_given() {
    assert_eq!(HfModel::new("a/b").effective_cache_dir("/d"), "/d");
    assert_eq!(
        HfModel::new("a/b").cache_dir("/c").effective_cache_dir("/d"),
        "/c"
    );
}
