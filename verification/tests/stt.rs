use bit::config::Settings;
use bit::stt::{
    delete_model, delete_stt_model, download_error, download_model, file_done,
    get_stt_models,
    migrate_legacy_dirs, model_dir, model_files, model_ready, models, parakeet_files,
    set_stt_model, spec, whisper_files, Backend, LoadStep, Stt, DEFAULT_MODEL_ID,
};

#[test]
fn specs_have_unique_ids() {
    let all = models();
    let ids: Vec<_> = all.iter().map(|m| m.id).collect();
    let unique: std::collections::HashSet<_> = ids.iter().collect();
    assert_eq!(ids.len(), unique.len(), "duplicate model ids");
}

#[test]
fn default_model_exists_in_registry() {
    assert!(models().iter().any(|m| m.id == DEFAULT_MODEL_ID));
}

#[test]
fn spec_falls_back_to_default_for_unknown_id() {
    // A stale setting naming a removed model falls back to the default, which is
    // always present.
    let s = spec("nonexistent-future-model");
    assert_eq!(s.id, DEFAULT_MODEL_ID);
}

#[test]
fn parakeet_and_whisper_have_disjoint_files() {
    // The two models must not share file names.
    let parakeet = parakeet_files();
    let whisper = whisper_files();
    let p_names: Vec<&str> = parakeet.iter().map(|(_, n)| *n).collect();
    let w_names: Vec<&str> = whisper.iter().map(|(_, n)| *n).collect();
    for name in &p_names {
        assert!(!w_names.contains(name), "{name} shared between models");
    }
}

fn paths(list: &[&str]) -> Vec<String> {
    list.iter().map(|p| p.to_string()).collect()
}

#[test]
fn models_are_found_by_id() {
    let ids: Vec<&str> = models().iter().map(|m| m.id).collect();
    assert_eq!(ids, ["parakeet-v2", "whisper-base"]);
    assert_eq!(spec("whisper-base").size_mb, 141);
    assert_eq!(spec("parakeet-v2").languages, "English");
}

#[test]
fn files_lie_in_the_models_directory() {
    assert_eq!(model_dir("/d", "x"), "/d/models/x");
    assert_eq!(model_files("/d", "whisper-base"), ["/d/models/whisper-base/ggml-base.bin"]);
    assert_eq!(model_files("/d", "old").len(), 4);
    assert_eq!(model_files("/d", "old")[3], "/d/models/old/vocab.txt");
    assert_eq!(delete_model("/d", "x", true), Some("/d/models/x".to_string()));
    assert_eq!(delete_model("/d", "x", false), None);
}

#[test]
fn old_directories_are_migrated_once() {
    assert_eq!(
        migrate_legacy_dirs("/d", true, false),
        Some((
            "/d/models/parakeet-tdt-0.6b-v2".to_string(),
            "/d/models/parakeet-v2".to_string()
        ))
    );
    assert_eq!(migrate_legacy_dirs("/d", true, true), None);
    assert_eq!(migrate_legacy_dirs("/d", false, false), None);
}

#[test]
fn a_model_is_ready_when_all_files_are_there() {
    let all = model_files("/d", "parakeet-v2");
    assert!(model_ready("/d", "parakeet-v2", &all));
    assert!(!model_ready("/d", "parakeet-v2", &all[1..].to_vec()));
    assert!(!model_ready("/d", "whisper-base", &all));
    let plan = download_model("/d", "parakeet-v2", &all[..1].to_vec());
    let steps: Vec<_> = plan.iter().map(|d| (d.done, d.total, d.present)).collect();
    assert_eq!(steps, [(1, 4, true), (2, 4, false), (3, 4, false), (4, 4, false)]);
    assert_eq!(plan[3].name, "vocab.txt");
    assert_eq!(plan[3].temp, "/d/models/parakeet-v2/vocab.txt.part");
    assert!(plan[3].url.ends_with("/resolve/main/vocab.txt"));
    let dests: Vec<String> = plan.into_iter().map(|d| d.dest).collect();
    assert!(model_ready("/d", "parakeet-v2", &dests));
    assert_eq!(download_error("vocab.txt", "404"), "download vocab.txt: 404");
}

#[test]
fn progress_ends_with_a_failure() {
    let all = model_files("/d", "parakeet-v2");
    let plan = download_model("/d", "parakeet-v2", &all[..1].to_vec());
    let fetched = [Err("there".to_string()), Ok(()), Err("offline".to_string()), Ok(())];
    let mut reports = Vec::new();
    let mut end = Ok(());
    for (d, f) in plan.iter().zip(fetched) {
        match file_done(d, f) {
            Ok(report) => reports.push(report),
            Err(e) => {
                end = Err(e);
                break;
            }
        }
    }
    assert_eq!(reports, [(1, 4), (2, 4)]);
    assert_eq!(end, Err("offline".to_string()));
    assert!(plan.iter().all(|d| !all.contains(&d.temp)));
}

#[test]
fn models_are_loaded_when_they_become_active() {
    let mut stt = Stt::new("/d".to_string());
    assert_eq!(
        stt.transcribe(Ok("hi".to_string())),
        Err("model not loaded".to_string())
    );
    match stt.ensure_loaded("whisper-base", &Vec::new()) {
        LoadStep::Load { downloads, backend } => {
            assert_eq!(downloads.len(), 1);
            assert!(matches!(backend, Backend::Whisper(p)
                if p == "/d/models/whisper-base/ggml-base.bin"));
        }
        other => panic!("expected a load, got {other:?}"),
    }
    stt.loaded("whisper-base");
    assert!(matches!(stt.ensure_loaded("whisper-base", &Vec::new()), LoadStep::Loaded));
    assert_eq!(stt.transcribe(Ok("hi".to_string())), Ok("hi".to_string()));
    match stt.ensure_loaded("gone", &model_files("/d", "gone")) {
        LoadStep::Load { downloads, backend } => {
            assert!(downloads.is_empty());
            assert!(matches!(backend, Backend::Parakeet(d) if d == "/d/models/gone"));
        }
        other => panic!("expected a load, got {other:?}"),
    }
}

#[test]
fn models_are_shown_with_their_state() {
    let existing = paths(&["/d/models/whisper-base/ggml-base.bin"]);
    let shown = get_stt_models("/d", "parakeet-v2", &existing);
    let states: Vec<_> = shown
        .iter()
        .map(|m| (m.id.as_str(), m.downloaded, m.active))
        .collect();
    assert_eq!(states, [("parakeet-v2", false, true), ("whisper-base", true, false)]);
}

#[test]
fn only_known_models_can_be_picked() {
    let s = set_stt_model(Settings::default(), "whisper-base".to_string()).unwrap();
    assert_eq!(s, Settings { stt_model: "whisper-base".to_string(), ..Settings::default() });
    assert_eq!(
        set_stt_model(Settings::default(), "x".to_string()),
        Err("unknown model: x".to_string())
    );
    assert_eq!(delete_stt_model("a", "b"), Ok(()));
    assert_eq!(
        delete_stt_model("a", "a"),
        Err("can’t delete the active model — switch first".to_string())
    );
}
