use siku::bookmark_service::{create_bookmark, list_bookmarks};
use siku::cron_scheduler::{
    fired_prompt, parse_cron, parse_field, validate, Fired, Moment, Scheduled,
};
use siku::db::{
    add_column_if_missing, apply_pending_seed_import, attachments_statements, backup_dir,
    budget_steps, chunks_fts_statements, core_tables, crr_triggers_fresh, crsqlite_extension_path,
    current_vault_after, device_id_after, drop_crr_objects, fts_rebuild_statements,
    imports_table_statements, init, key_statements, list_keyed_tables, load_statement,
    new_vault_id, optional_tables, pending_columns, refresh_stale_crr_triggers,
    register_crr_table, rename_vaults, vault_statements, versions_statements, AcquireEvent,
    ColumnName, ExtensionPlace, FinalizeAction, Finalizer, InitStep, OldVault, SeedFiles,
    SeedImportOutcome, DEFAULT_VAULT_ID,
};
use siku::digest::sha256_hex;
use siku::error::SikuError;
use siku::file_service::{list_dir, listed_rows, mime_guess, FoundEntry};
use siku::file_store::{blob_path, blob_rel_path, has_blob, parse_blob_path, resolve_blob_path};
use siku::llm_provider_service::{
    create_provider, default_base_url, default_id_after, default_model, delete_provider,
    ensure_seeded, get_default_provider, get_provider, list_providers, load_default_llm_config,
    provider_to_block, resolve_block, set_default_provider, temperature_key, update_provider, LlmProvider, LlmProviderInput,
};
use siku::logger::{max_log_files, max_log_size, LogFile, SizeRollingFileAppender};
use siku::models::{
    AppSettings, BookmarkInput, CronJob, DeviceAppSettings, ProjectInput, Setting,
};
use siku::navigation_guard::{
    decide, is_app_url, is_external, is_local_host, CurrentPage, Navigation, UrlParts,
};
use siku::project_service::{
    create, folder_name, git_bootstrap, project_after_delete, project_path, set_archived, update,
    wants_repository,
};
use siku::redact::redact_api_key;
use siku::settings_service::{
    cached_device_settings, cached_settings, delete_setting, get_all_settings, get_setting,
    migrate_legacy_account_settings, refresh_cache, set_setting, update_cached_device_settings,
    update_cached_settings, SettingsCache,
};
use siku::sync_schema::{
    migrate_sync_schema_v2, Bind, KeyState, MigrationStep, OldVersion, SchemaState,
};
use siku::startup::{
    after_refresh, alert_script, closes_pet, opening_steps, panic_text, restore_sync,
    running_steps, AfterRefresh, SetupState, Shutdown, ShutdownStep, StartupStep, SyncStart,
    WindowAction,
};
use siku::tasks::{new_task_store, snapshot, LogStat, TaskHandle, TaskInfo};
use siku::time::{earlier, iso_to_display, now_iso};

const NOW: &str = "2026-01-01T00:00:00.000Z";

#[test]
fn test_now_iso_ends_with_z() {
    let now = now_iso();
    assert!(now.ends_with('Z'));
}

#[test]
fn test_now_iso_has_millis_and_parses() {
    let now = now_iso();
    assert!(now.contains('.'), "now_iso must carry milliseconds: {now}");
    assert!(
        chrono::DateTime::parse_from_rfc3339(&now).is_ok(),
        "now_iso must stay RFC3339-parseable: {now}"
    );
}

#[test]
fn test_rfc3339_ordering_across_precisions() {
    let secs = "2026-06-16T10:30:00Z";
    let millis_same_second = "2026-06-16T10:30:00.500Z";
    let millis_next_second = "2026-06-16T10:30:01.000Z";
    assert!(millis_next_second > millis_same_second);
    let s = chrono::DateTime::parse_from_rfc3339(secs).unwrap();
    let m = chrono::DateTime::parse_from_rfc3339(millis_same_second).unwrap();
    assert!(m > s, "millis timestamp is later within the same second");
    assert!(
        millis_same_second < secs,
        "lexicographic order is wrong here; comparisons must parse"
    );
    assert!(earlier(secs, millis_same_second) && !earlier(millis_same_second, secs));
    assert!(earlier(millis_same_second, millis_next_second));
    assert!(earlier(secs, millis_next_second) && !earlier(secs, secs));
}

#[test]
fn test_iso_to_display() {
    assert_eq!(iso_to_display("2026-06-16T10:30:00Z"), "2026-06-16 10:30");
    assert_eq!(iso_to_display("2026-06-16T10:30:00+02:00"), "2026-06-16 08:30");
    assert_eq!(iso_to_display("soon"), "soon");
}

fn url(s: &str) -> UrlParts {
    let (scheme, rest) = s.split_once(':').unwrap();
    let host = rest.strip_prefix("//").map(|r| {
        let authority = r.split('/').next().unwrap();
        match authority.strip_prefix('[') {
            Some(v6) => format!("[{}]", v6.split(']').next().unwrap()),
            None => authority.split(':').next().unwrap().to_string(),
        }
    });
    UrlParts { scheme: scheme.to_string(), host }
}

#[test]
fn app_urls_are_allowed() {
    for s in [
        "http://tauri.localhost/",
        "http://tauri.localhost/splashscreen.html",
        "http://tauri.localhost/reader/12?tab=3",
        "tauri://localhost/index.html",
        "http://localhost:1420/",
        "http://127.0.0.1:3080/reader",
        "http://[::1]:1420/",
        "about:blank",
        "blob:tauri://localhost/abc",
        "data:image/png;base64,AAAA",
    ] {
        assert!(is_app_url(&url(s)), "{s} should be treated as the app");
    }
}

#[test]
fn external_urls_are_never_the_app() {
    for s in [
        "https://doi.org/10.1016/j.compind.2023.103999",
        "http://example.com/paper.pdf",
        "https://localhost.evil.com/",
        "https://tauri.localhost.evil.com/",
    ] {
        let u = url(s);
        assert!(!is_app_url(&u), "{s} must not be treated as the app");
        assert!(is_external(&u), "{s} should be handed to the browser");
        assert!(decide(&u, CurrentPage::Elsewhere) == Navigation::HandOff);
        assert!(decide(&u, CurrentPage::Blank) == Navigation::Allow);
    }
}

#[test]
fn local_host_matching_is_exact() {
    for h in ["localhost", "tauri.localhost", "127.0.0.1", "::1", "[::1]", "dev.localhost"] {
        assert!(is_local_host(h), "{h} is local");
    }
    for h in [
        "localhost.evil.com",
        "tauri.localhost.evil.com",
        "notlocalhost",
        "example.com",
        "127.0.0.1.evil.com",
    ] {
        assert!(!is_local_host(h), "{h} is not local");
    }
    for h in ["127.1.2.3", "0:0:0:0:0:0:0:1", "0000::0.0.0.1"] {
        assert!(is_local_host(h), "{h} is local");
    }
    for h in ["128.0.0.1", "127.0.0.01", "127.0.0", "::2", "::ffff:127.0.0.1", "1::1::", ":::1"] {
        assert!(!is_local_host(h), "{h} is not local");
    }
}

#[test]
fn unknown_schemes_are_blocked_without_a_handoff() {
    for s in ["file:///etc/passwd", "javascript:alert(1)", "ftp://host/x"] {
        let u = url(s);
        assert!(!is_app_url(&u));
        assert!(!is_external(&u));
        assert!(decide(&u, CurrentPage::Elsewhere) == Navigation::Refuse);
        assert!(decide(&u, CurrentPage::SameOrigin) == Navigation::Allow);
    }
}

#[test]
fn loopback_addresses_agree_with_std() {
    for h in [
        "127.0.0.1", "127.255.255.255", "126.0.0.1", "256.0.0.1", "1.2.3", "", "::", "::1", "1::",
        "::0001", "::00001", "0::1", "1:2:3:4:5:6:7:8", "::1.2.3.4", "::0.0.0.1", "::127.0.0.1",
        "0:0:0:0:0:0:0.0.0.1", "0:0:0:0:0:0:0:0.0.0.1", "1.2.3.4::1", "::g", "0:0:0:0:0:0:0::1",
        "::0:0:0:0:0:0:1", "::0:0:0:0:0:0:0:1", "+127.0.0.1", "127.0.0.1 ",
    ] {
        let want = h.parse::<core::net::IpAddr>().map(|ip| ip.is_loopback()).unwrap_or(false);
        assert_eq!(is_local_host(h), want, "{h}");
    }
}

#[test]
fn startup_waits_for_both_halves() {
    let mut s = SetupState::new();
    assert!(s.try_finish_startup(true, true).is_empty());
    s.set_complete();
    assert!(s.try_finish_startup(true, true).is_empty());
    s.backend_complete();
    let steps = s.try_finish_startup(true, true);
    assert!(steps[0] == WindowAction::CloseSplash);
    assert!(steps[1] == WindowAction::ShowMain);
    assert_eq!(steps.len(), 3);
    assert!(matches!(opening_steps()[1], StartupStep::OpenDatabase));
    assert_eq!(running_steps(true).len(), running_steps(false).len() + 1);
    assert!(closes_pet("main") && !closes_pet("splashscreen"));
}

#[test]
fn shutdown_runs_once() {
    let mut s = Shutdown::new();
    let steps = s.run_cleanup(true, 1, 0);
    assert_eq!(steps.len(), 6);
    assert!(*steps.last().unwrap() == ShutdownStep::FinalizeDatabase);
    assert!(s.run_cleanup(true, 1, 0).is_empty());
    let mut quiet = Shutdown::new();
    assert_eq!(quiet.run_cleanup(true, 0, 0).len(), 4);
}

#[test]
fn account_sync_is_restored() {
    assert!(restore_sync("", "t", true) == SyncStart::Skip);
    assert!(restore_sync("u", "t", true) == SyncStart::UseStored);
    assert!(restore_sync("u", "t", false) == SyncStart::Refresh);
    assert!(matches!(after_refresh(Ok("n".to_string())), AfterRefresh::Start(t) if t == "n"));
    assert!(matches!(after_refresh(Ok(String::new())), AfterRefresh::Skip));
    assert!(matches!(after_refresh(Err("e".to_string())), AfterRefresh::ClearCredentials));
}

#[test]
fn panics_are_told() {
    assert_eq!(panic_text("x"), "应用遇到内部错误,即将退出：\nx\n\n详情见日志文件。");
    assert_eq!(
        alert_script("T", "a\"b"),
        "display alert \"T\" message \"a\\\"b\" as critical"
    );
}

#[test]
fn logs_rotate_by_size() {
    let mut a = SizeRollingFileAppender::new("siku", 10, 2, 0);
    assert!(!a.should_rotate(20));
    a.written(8);
    assert!(!a.should_rotate(2));
    assert!(a.should_rotate(3));
    a.rotated();
    assert!(!a.should_rotate(3));
    assert_eq!(a.rotated_name("2026-01-01-000000"), "siku.2026-01-01-000000.log");
    let file = |name: &str, modified: u64| LogFile { name: name.to_string(), modified };
    let removed = a.cleanup_old_files(&vec![
        file("siku.c.log", 3),
        file("siku.log", 0),
        file("siku.a.log", 1),
        file("other.log", 0),
        file("siku.b.log", 2),
    ]);
    assert_eq!(removed.len(), 1);
    assert_eq!(removed[0].name, "siku.a.log");
    assert_eq!(max_log_size(0), 1_048_576);
    assert_eq!(max_log_files(-1), 0);
}

fn task(id: &str, created: &str, path: Option<&str>) -> TaskHandle {
    TaskHandle {
        info: TaskInfo {
            id: id.to_string(),
            description: String::new(),
            status: "running".to_string(),
            exit_code: None,
            output_path: path.map(|p| p.to_string()),
            session_id: None,
            created_at: created.to_string(),
            log_bytes: None,
            log_modified: None,
        },
        cancel: false,
    }
}

#[test]
fn tasks_are_listed_newest_first() {
    let mut store = new_task_store();
    store.push(task("old", "1", Some("/log")));
    store.push(task("new", "2", None));
    let stats = vec![Some(LogStat { bytes: 5, modified: None }), None];
    let list = snapshot(&store, &stats);
    assert_eq!(list[0].id, "new");
    assert_eq!(list[1].log_bytes, Some(5));
}

#[test]
fn cron_expressions() {
    assert_eq!(parse_field("*/15", 0, 59).ok(), Some(vec![0, 15, 30, 45]));
    assert_eq!(parse_field("1-3,9", 0, 59).ok(), Some(vec![1, 2, 3, 9]));
    assert_eq!(parse_field("1/0", 0, 59).err().as_deref(), Some("step cannot be 0"));
    assert!(parse_field("x", 0, 59).is_err());
    assert!(validate("* * * *").is_err());
    assert!(parse_cron("0 9 * * 1-5").is_ok());
    let m = Moment { minute: 0, hour: 9, day: 1, month: 1, weekday: 1 };
    assert!(siku::cron_scheduler::matches(&m, "0 9 * * 1-5"));
    assert!(!siku::cron_scheduler::matches(&m, "1 9 * * *"));
    let job = CronJob {
        id: "j".to_string(),
        session_id: "s".to_string(),
        cron: "0 9 * * *".to_string(),
        prompt: "p".to_string(),
        recurring: true,
        created_at: NOW.to_string(),
        updated_at: NOW.to_string(),
    };
    let mut fired = Fired::new();
    assert!(fired.fire(&job, &m, "2026-01-01T09:00"));
    assert!(!fired.fire(&job, &m, "2026-01-01T09:00"));
    assert!(fired.fire(&job, &m, "2026-01-02T09:00"));
    assert!(fired_prompt("p").contains('p'));
}

fn scheduled(id: &str, recurring: bool, enabled: bool) -> Scheduled {
    Scheduled {
        job: CronJob {
            id: id.to_string(),
            session_id: "s".to_string(),
            cron: "0 9 * * *".to_string(),
            prompt: "p".to_string(),
            recurring,
            created_at: NOW.to_string(),
            updated_at: NOW.to_string(),
        },
        enabled,
        last_fired: None,
    }
}

#[test]
fn jobs_fire_once_a_minute() {
    let m = Moment { minute: 0, hour: 9, day: 1, month: 1, weekday: 1 };
    let jobs =
        vec![scheduled("daily", true, true), scheduled("once", false, true), scheduled("off", true, false)];
    let mut fired = Fired::new();
    let (due, left) = fired.tick(jobs, &m, "2026-01-01 09:00", "t1");
    let ids: Vec<&str> = due.iter().map(|d| d.id.as_str()).collect();
    assert_eq!(ids, vec!["daily", "once"]);
    assert_eq!((due[1].session_id.as_str(), due[1].prompt.as_str()), ("s", "p"));
    // A job for one time goes, and the time is noted on the others that fired.
    assert_eq!(left.len(), 2);
    assert_eq!((left[0].job.id.as_str(), left[0].last_fired.as_deref()), ("daily", Some("t1")));
    assert_eq!((left[1].job.id.as_str(), left[1].last_fired.as_deref()), ("off", None));
    assert_eq!(left[0].job.created_at, NOW);
    assert_eq!(left[0].job.updated_at, NOW);
    let (due, left) = fired.tick(left, &m, "2026-01-01 09:00", "t2");
    assert!(due.is_empty());
    assert_eq!(left[0].last_fired.as_deref(), Some("t1"));
    let (due, _) = fired.tick(left, &m, "2026-01-02 09:00", "t3");
    assert_eq!(due.len(), 1);
    let other = Moment { minute: 1, hour: 9, day: 2, month: 1, weekday: 2 };
    assert!(fired.tick(vec![scheduled("daily", true, true)], &other, "k", "t4").0.is_empty());
}

#[test]
fn cron_fields_are_unions() {
    assert_eq!(parse_field("*", 1, 5).ok(), Some(vec![1, 2, 3, 4, 5]));
    assert_eq!(parse_field("5,1-2,*/40", 0, 59).ok(), Some(vec![0, 1, 2, 5, 40]));
}

fn setting(key: &str, value: &str) -> Setting {
    Setting { key: key.to_string(), value: value.to_string(), updated_at: NOW.to_string() }
}

#[test]
fn settings_are_set_and_deleted() {
    let mut rows = vec![];
    set_setting(&mut rows, "b", "1", NOW);
    set_setting(&mut rows, "a", "2", NOW);
    set_setting(&mut rows, "b", "3", NOW);
    assert_eq!(rows.len(), 2);
    assert_eq!(get_setting(&rows, "b").as_deref(), Some("3"));
    assert_eq!(get_all_settings(&rows), vec![1, 0]);
    delete_setting(&mut rows, "b");
    assert!(get_setting(&rows, "b").is_none());
}

#[test]
fn account_data_leaves_the_synced_settings() {
    let mut synced = vec![
        setting("account.token", "new"),
        setting("account.email", "e"),
        setting("theme", "dark"),
        setting("account.user_id", ""),
    ];
    let mut device = vec![setting("account.token", "own")];
    migrate_legacy_account_settings(&mut synced, &mut device, NOW);
    assert!(get_setting(&synced, "account.token").is_none());
    assert_eq!(get_setting(&device, "account.token").as_deref(), Some("own"));
    assert_eq!(get_setting(&device, "account.email").as_deref(), Some("e"));
    assert_eq!(get_setting(&synced, "theme").as_deref(), Some("dark"));
    assert_eq!(get_setting(&synced, "account.user_id").as_deref(), Some(""));
}

#[test]
fn settings_are_cached() {
    let mut cache: SettingsCache<u8, u8> = SettingsCache {
        app: AppSettings::default(),
        device: DeviceAppSettings::default(),
    };
    let mut app: AppSettings<u8, u8> = AppSettings::default();
    app.show_pet = !app.show_pet;
    let shown = app.show_pet;
    update_cached_settings(&mut cache, app);
    assert_eq!(cached_settings(&cache).show_pet, shown);
    let mut device = DeviceAppSettings::default();
    device.device_id = "d".to_string();
    update_cached_device_settings(&mut cache, device);
    assert_eq!(cached_device_settings(&cache).device_id, "d");
    assert!(refresh_cache(&mut cache, Err("x".to_string()), Err("y".to_string())).is_err());
    assert_eq!(cached_device_settings(&cache).device_id, "d");
}

fn input(name: &str, default: Option<bool>) -> LlmProviderInput<u8> {
    LlmProviderInput {
        name: name.to_string(),
        provider: "openai".to_string(),
        model: "m".to_string(),
        api_key: "k".to_string(),
        base_url: "u".to_string(),
        proxy: None,
        max_tokens: None,
        temperature: Some(7),
        extra_body: Some("{\"a\": 1}".to_string()),
        is_default: default,
        is_vision: None,
    }
}

#[test]
fn one_provider_is_the_default() {
    let mut list: Vec<LlmProvider<u8>> = vec![];
    assert!(get_default_provider(&list).is_none());
    create_provider(&mut list, input("a", None), "1", "t1");
    create_provider(&mut list, input("b", Some(true)), "2", "t2");
    assert_eq!(list[1].sort_order, 2);
    assert_eq!(get_default_provider(&list), Some(1));
    assert_eq!(list_providers(&list), vec![1, 0]);
    create_provider(&mut list, input("c", Some(true)), "3", "t3");
    assert_eq!(list.iter().filter(|p| p.is_default).count(), 1);
    assert_eq!(set_default_provider(&mut list, "1").ok(), Some(0));
    assert!(update_provider(&mut list, "nope", input("x", None), "t").is_err());
    assert_eq!(update_provider(&mut list, "2", input("z", None), "t").ok(), Some(1));
    assert_eq!(list[1].name, "z");
    let block = provider_to_block(&list[1]);
    assert!(block.extra_body.is_some());
    delete_provider(&mut list, "1");
    assert_eq!(list.len(), 2);
    assert_eq!(get_default_provider(&list), Some(0));
    assert_eq!(get_provider(&list, "1").err().unwrap(), "provider not found: 1");
    assert!(default_id_after(Some("1".to_string()), "1").is_none());
}

#[test]
fn several_defaults_become_one() {
    let mut list: Vec<LlmProvider<u8>> = vec![];
    create_provider(&mut list, input("a", None), "1", "t1");
    create_provider(&mut list, input("b", None), "2", "t2");
    list[0].is_default = true;
    list[1].is_default = true;
    assert_eq!(set_default_provider(&mut list, "2").ok(), Some(1));
    let flags: Vec<bool> = list.iter().map(|p| p.is_default).collect();
    assert_eq!(flags, vec![false, true]);
}

#[test]
fn older_settings_become_a_provider() {
    let mut list: Vec<LlmProvider<u8>> = vec![];
    ensure_seeded(&mut list, &vec![], 7, "m", "1", NOW);
    assert!(list.is_empty());
    let rows = vec![setting("llm.provider", "Kimi"), setting("llm.kimi.max_tokens", "100")];
    assert_eq!(temperature_key(&rows).as_deref(), Some("llm.kimi.temperature"));
    ensure_seeded(&mut list, &rows, 7, "m", "1", NOW);
    assert_eq!(list[0].name, "kimi (迁移)");
    assert_eq!(list[0].base_url, "https://api.moonshot.cn/v1");
    assert_eq!(list[0].model, "moonshot-v1-auto");
    assert_eq!(list[0].max_tokens, Some(100));
    assert!(list[0].is_default);
    assert_eq!(default_base_url("unknown"), "https://api.deepseek.com/v1");
    assert_eq!(default_model("anthropic", "named"), "named");
}

#[test]
fn databases_are_brought_up_to_date_once() {
    let steps = init();
    let first = pending_columns(vec![], &steps);
    assert!(first.contains(&"ALTER TABLE papers ADD COLUMN deleted_at TEXT".to_string()));
    // A column that two steps name is added once.
    let folder = "ALTER TABLE notes ADD COLUMN is_folder INTEGER DEFAULT 0".to_string();
    assert_eq!(first.iter().filter(|s| **s == folder).count(), 1);
    let existing: Vec<ColumnName> = steps
        .iter()
        .filter_map(|s| match s {
            InitStep::Column { table, column, .. } => Some(ColumnName {
                table: table.clone(),
                column: column.clone(),
            }),
            _ => None,
        })
        .collect();
    assert!(pending_columns(existing, &steps).is_empty());
    let columns = vec!["id".to_string()];
    assert!(add_column_if_missing(&columns, "t", "id", "TEXT").is_none());
    assert_eq!(budget_steps(true).len(), 0);
    assert_eq!(budget_steps(false).len(), 3);
    assert_eq!(chunks_fts_statements(&Some("tokenize='trigram'".to_string())).len(), 0);
    assert_eq!(chunks_fts_statements(&Some("plain".to_string())).len(), 6);
    assert_eq!(fts_rebuild_statements(false).len(), 4);
    assert_eq!(imports_table_statements(&vec!["source_url".to_string()]).len(), 0);
    assert_eq!(imports_table_statements(&columns).len(), 4);
}

#[test]
fn legacy_tables_are_recognised() {
    let sql = "CREATE TABLE vaults (id INTEGER PRIMARY KEY AUTOINCREMENT, name TEXT)";
    assert_eq!(vault_statements(sql).len(), 2);
    assert_eq!(vault_statements("CREATE TABLE vaults (id TEXT)").len(), 0);
    assert_eq!(versions_statements(sql).len(), 3);
    let old = |id: i64, name: &str| OldVault {
        id,
        name: name.to_string(),
        created_at: NOW.to_string(),
        updated_at: NOW.to_string(),
    };
    let fresh = vec!["x".to_string(), "uuid-2".to_string()];
    let (vaults, ids) =
        rename_vaults(&vec![old(1, "cognitive-archive"), old(2, "work")], &fresh);
    assert_eq!(vaults[0].id, DEFAULT_VAULT_ID);
    assert_eq!(vaults[1].id, "uuid-2");
    assert_eq!(new_vault_id(&ids, 1).as_deref(), Some(DEFAULT_VAULT_ID));
    assert_eq!(current_vault_after("2", &ids).as_deref(), Some("uuid-2"));
    assert!(current_vault_after("already-a-uuid", &ids).is_none());
    let tags = &list_keyed_tables()[0];
    assert_eq!(key_statements(tags, Some(1), "name TEXT NOT NULL UNIQUE").len(), 4);
    assert_eq!(key_statements(tags, Some(1), "name TEXT NOT NULL").len(), 0);
    assert_eq!(key_statements(tags, Some(0), "").len(), 4);
    assert_eq!(key_statements(&list_keyed_tables()[3], Some(0), "").len(), 5);
}

#[test]
fn core_tables_register_as_crr() {
    let tables = core_tables();
    assert!(tables.contains(&"papers".to_string()) && tables.contains(&"notes".to_string()));
    assert!(!tables.contains(&"creators".to_string()));
    for t in &tables {
        assert_eq!(register_crr_table(t, false, false), vec![format!("SELECT crsql_as_crr('{t}')")]);
        assert!(register_crr_table(t, true, true).is_empty());
    }
}

#[test]
fn optional_tables_register_as_crr() {
    assert_eq!(optional_tables(), vec!["chat_sessions", "chat_messages", "settings"]);
}

#[test]
fn crr_triggers_are_refreshed_after_schema_change() {
    let trigger = Some("... NEW.\"id\", NEW.\"title\" ...".to_string());
    let columns = vec!["id".to_string(), "title".to_string()];
    assert!(crr_triggers_fresh(&trigger, &columns));
    let more = vec!["id".to_string(), "title".to_string(), "added".to_string()];
    assert!(!crr_triggers_fresh(&trigger, &more));
    assert!(!crr_triggers_fresh(&None, &columns));
    assert_eq!(drop_crr_objects("notes").len(), 5);
    assert_eq!(register_crr_table("notes", true, false).len(), 6);
}

#[test]
fn data_migration_update_refreshes_stale_crr_triggers() {
    assert!(refresh_stale_crr_triggers("notes", false, false).is_empty());
    assert!(refresh_stale_crr_triggers("notes", true, true).is_empty());
    let s = refresh_stale_crr_triggers("notes", true, false);
    assert_eq!(s.last().unwrap(), "SELECT crsql_as_crr('notes')");
}

#[test]
fn finalize_db_waits_for_connections_returned_during_shutdown() {
    let mut f = Finalizer::new();
    assert!(f.next(2, false) == FinalizeAction::Acquire);
    assert!(f.acquired(AcquireEvent::Acquired));
    // The second connection is late.
    assert!(f.next(2, false) == FinalizeAction::Acquire);
    assert!(f.acquired(AcquireEvent::TimedOut));
    assert!(f.next(2, false) == FinalizeAction::Acquire);
    assert!(f.acquired(AcquireEvent::Acquired));
    assert!(f.next(2, false) == FinalizeAction::Sleep);
    assert!(f.next(2, false) == FinalizeAction::Close);
    let mut late = Finalizer::new();
    assert!(late.next(5, true) == FinalizeAction::Close);
    assert!(!late.acquired(AcquireEvent::Failed));
}

#[test]
fn seeds_take_the_place_of_the_database() {
    let f = SeedFiles {
        db: true,
        wal: true,
        shm: false,
        blobs: true,
        seed_db: true,
        seed_size: 9,
        seed_blobs: false,
    };
    let moves = apply_pending_seed_import("/d", "/seed", "/b", &f).ok().unwrap();
    let names: Vec<(&str, &str)> =
        moves.iter().map(|m| (m.from.as_str(), m.to.as_str())).collect();
    assert_eq!(
        names,
        vec![
            ("/d/siku.db", "/b/siku.db"),
            ("/d/siku.db-wal", "/b/siku.db-wal"),
            ("/d/blobs", "/b/blobs"),
            ("/seed/siku.db", "/d/siku.db"),
        ]
    );
    let empty = SeedFiles { seed_size: 0, ..f };
    assert_eq!(
        apply_pending_seed_import("/d", "/seed", "/b", &empty).err().unwrap(),
        "pending seed import siku.db is empty (0 bytes)"
    );
    let absent = SeedFiles { seed_db: false, ..empty };
    assert_eq!(
        apply_pending_seed_import("/d", "/seed", "/b", &absent).err().unwrap(),
        "pending seed import does not contain siku.db: /seed/siku.db"
    );
    assert_eq!(
        backup_dir("/d", "2026-01-01T00:00:00.000Z"),
        "/d/pre-seed-backup-2026-01-01T00-00-00-000Z"
    );
    let old = SeedImportOutcome::Applied(Some("mine".to_string()));
    assert_eq!(device_id_after(&old, "theirs", "fresh"), "mine");
    assert_eq!(device_id_after(&SeedImportOutcome::Applied(None), "theirs", "fresh"), "fresh");
    assert_eq!(device_id_after(&SeedImportOutcome::Absent, "mine", "fresh"), "mine");
    assert_eq!(device_id_after(&SeedImportOutcome::Absent, "", "fresh"), "fresh");
    assert!(crsqlite_extension_path(false, true, true) == Some(ExtensionPlace::BesideExecutable));
    assert!(crsqlite_extension_path(false, false, false).is_none());
    assert_eq!(
        load_statement("/a'b"),
        "SELECT load_extension('/a''b', 'sqlite3_crsqlite_init')"
    );
}

#[test]
fn creates_missing_directory() {
    let new = ProjectInput {
        name: None,
        path: Some(" /tmp/new-project/nested ".to_string()),
        git_init: None,
    };
    let path = project_path(&new).ok().unwrap();
    assert_eq!(path, "/tmp/new-project/nested");
    let p = create(&new, &path, "1", NOW);
    assert_eq!(p.name, "nested");
    assert!(!wants_repository(&new));
    let none = ProjectInput { name: None, path: None, git_init: Some(true) };
    assert_eq!(project_path(&none).err().unwrap(), "project path required");
    assert!(wants_repository(&none));
    assert_eq!(folder_name("/"), "/");
    assert_eq!(folder_name("C:\\work\\thesis\\"), "thesis");
    assert_eq!(folder_name("C:\\"), "C:\\");
}

#[test]
fn git_init_creates_repo_and_gitignore() {
    assert_eq!(git_bootstrap(true, true, "", false).ok(), Some(true));
    assert_eq!(git_bootstrap(true, true, "", true).ok(), Some(false));
    assert!(git_bootstrap(false, true, "", false).is_err());
    assert_eq!(
        git_bootstrap(true, false, "exit status: 1", false).err().unwrap(),
        "git init 退出码非零：exit status: 1"
    );
}

#[test]
fn archive_roundtrip() {
    let new = ProjectInput {
        name: Some("P".to_string()),
        path: Some("/p".to_string()),
        git_init: None,
    };
    let mut p = create(&new, "/p", "1", NOW);
    assert!(!p.archived);
    set_archived(&mut p, true, "t1");
    assert!(p.archived);
    set_archived(&mut p, false, "t2");
    assert!(!p.archived);
    let blank = ProjectInput { name: Some("  ".to_string()), path: None, git_init: None };
    assert_eq!(update(&p, &blank, "t3").name, "P");
    assert!(project_after_delete(Some("1".to_string()), "1").is_none());
}

#[test]
fn bookmarks_are_listed_newest_first() {
    let make = |id: &str, at: &str| {
        create_bookmark(
            BookmarkInput {
                title: id.to_string(),
                route: "/".to_string(),
                params_json: None,
            },
            id,
            at,
        )
    };
    let list = vec![make("a", "1"), make("b", "2")];
    assert_eq!(list[0].params_json, "{}");
    assert_eq!(list_bookmarks(&list), vec![1, 0]);
}

#[test]
fn directories_are_listed_first() {
    let entry = |name: &str, is_dir: bool| FoundEntry {
        name: name.to_string(),
        path: format!("/{name}"),
        is_dir,
        size: 1,
        modified_at: None,
    };
    let found = vec![
        entry("b.txt", false),
        entry(".hidden", false),
        entry("Zoo", true),
        entry("A.pdf", false),
    ];
    let rows = listed_rows(&found, false);
    assert_eq!(rows.len(), 3);
    let order: Vec<&str> = list_dir(&rows).iter().map(|i| rows[*i].name.as_str()).collect();
    assert_eq!(order, vec!["Zoo", "A.pdf", "b.txt"]);
    assert!(rows.iter().any(|r| r.mime_type.as_deref() == Some("application/pdf")));
    assert_eq!(listed_rows(&found, true).len(), 4);
    assert_eq!(mime_guess("x.MP3").as_deref(), Some("audio/mpeg"));
}

#[test]
fn blobs_are_named_by_content() {
    assert_eq!(
        sha256_hex(b"abc"),
        "ba7816bf8f01cfea414140de5dae2223b00361a396177a9cb410ff61f20015ad"
    );
    let rel = blob_rel_path(b"abc", "pdf");
    let (hash, ext) = parse_blob_path(&rel).unwrap();
    assert_eq!(hash, sha256_hex(b"abc"));
    assert_eq!(ext, "pdf");
    assert_eq!(resolve_blob_path("/d", &rel), blob_path("/d", &hash, &ext));
    assert!(has_blob(&vec![format!("{hash}.pdf")], &hash));
}

#[test]
fn errors_and_keys_are_told() {
    assert_eq!(SikuError::RateLimited.to_text(), "rate limited");
    assert_eq!(SikuError::NotFound("x".to_string()).to_text(), "not found: x");
    assert_eq!(SikuError::Database("d".to_string()).to_text(), "database error: d");
    assert_eq!(
        SikuError::MissingApiKey("kimi".to_string()).to_text(),
        "API key not configured for provider kimi"
    );
    assert_eq!(redact_api_key("abcdefghij"), "abc...ghij");
    assert_eq!(redact_api_key("ab"), "a...");
}

#[test]
fn blocks_are_resolved_by_id_or_by_default() {
    let mut list: Vec<LlmProvider<u8>> = vec![];
    match load_default_llm_config(&list) {
        Err(e) => assert_eq!(e, "no LLM provider configured"),
        Ok(_) => panic!("there is no provider"),
    }
    create_provider(&mut list, input("a", None), "1", "t1");
    let mut other = input("b", Some(true));
    other.model = "big".to_string();
    create_provider(&mut list, other, "2", "t2");
    assert!(std::matches!(load_default_llm_config(&list), Ok(b) if b.model == "big"));
    assert!(std::matches!(resolve_block(&list, "1"), Ok(b) if b.model == "m"));
    match resolve_block(&list, "3") {
        Err(e) => assert_eq!(e, "provider not found: 3"),
        Ok(_) => panic!("there is no such provider"),
    }
}

#[test]
fn tables_are_made_anew_once() {
    let counted = "id INTEGER PRIMARY KEY AUTOINCREMENT";
    assert!(vault_statements(&vault_statements(counted)[1]).is_empty());
    assert!(versions_statements(&versions_statements(counted)[1]).is_empty());
    let (_, rebuild) = attachments_statements("", "paper_id TEXT REFERENCES papers(id)");
    assert!(attachments_statements("", &rebuild[1]).1.is_empty());
    for t in &list_keyed_tables() {
        assert!(!key_statements(t, Some(0), &t.create).is_empty());
        assert!(key_statements(t, Some(1), &t.create).is_empty());
    }
}

fn schema(vaults: &str, versions: &str, attachments_old: &str, attachments: &str) -> SchemaState {
    SchemaState {
        vaults: vaults.to_string(),
        old_vaults: vec![
            OldVault {
                id: 1,
                name: "main".to_string(),
                created_at: "c1".to_string(),
                updated_at: "u1".to_string(),
            },
            OldVault {
                id: 7,
                name: "work".to_string(),
                created_at: "c7".to_string(),
                updated_at: "u7".to_string(),
            },
        ],
        current_vault: Some("7".to_string()),
        versions: versions.to_string(),
        old_versions: vec![OldVersion {
            note_id: "n1".to_string(),
            title: "t".to_string(),
            content: "text".to_string(),
            edited_by: "agent".to_string(),
            created_at: "c".to_string(),
        }],
        attachments_old: attachments_old.to_string(),
        attachments: attachments.to_string(),
        keyed: list_keyed_tables()
            .iter()
            .map(|t| KeyState { notnull: Some(1), sql: t.create.clone() })
            .collect(),
    }
}

fn shown(steps: &Vec<MigrationStep>) -> Vec<String> {
    let mut lines = Vec::new();
    for step in steps {
        match step {
            MigrationStep::Run { sql, binds } => {
                let mut line = sql.clone();
                for b in binds {
                    match b {
                        Bind::Text(t) => line.push_str(&format!(" [{t}]")),
                        Bind::Number(n) => line.push_str(&format!(" <{n}>")),
                    }
                }
                lines.push(line);
            }
            MigrationStep::Together(all) => lines.push(format!("together {}", all.len())),
        }
    }
    lines
}

#[test]
fn migration_moves_vaults_with_their_notes() {
    let counted = "id INTEGER PRIMARY KEY AUTOINCREMENT";
    let s = schema(counted, "", "", "");
    let ids = vec!["f1".to_string(), "f2".to_string()];
    let m = migrate_sync_schema_v2(&s, &ids, &ids, NOW);
    assert_eq!(m.before, vec!["PRAGMA foreign_keys = OFF", "PRAGMA legacy_alter_table = ON"]);
    assert_eq!(m.after, vec!["PRAGMA legacy_alter_table = OFF", "PRAGMA foreign_keys = ON"]);
    let lines = shown(&m.steps);
    assert_eq!(lines.len(), 8);
    assert_eq!(lines[0], "ALTER TABLE vaults RENAME TO vaults_old");
    assert!(lines[1].starts_with("CREATE TABLE vaults"));
    assert_eq!(
        lines[2],
        format!(
            "INSERT INTO vaults (id, name, created_at, updated_at) VALUES (?, ?, ?, ?) \
             [{DEFAULT_VAULT_ID}] [main] [c1] [u1]"
        )
    );
    assert!(lines[3].ends_with("[f2] [work] [c7] [u7]"));
    assert_eq!(
        lines[4],
        format!("UPDATE notes SET vault_id = ? WHERE vault_id = ? [{DEFAULT_VAULT_ID}] <1>")
    );
    assert_eq!(lines[5], "UPDATE notes SET vault_id = ? WHERE vault_id = ? [f2] <7>");
    assert_eq!(
        lines[6],
        format!(
            "UPDATE settings SET value = ?, updated_at = ? WHERE key = ? \
             [f2] [{NOW}] [notes.current_vault_id]"
        )
    );
    assert_eq!(lines[7], "DROP TABLE vaults_old");
}

#[test]
fn migration_runs_in_order_and_once() {
    let counted = "id INTEGER PRIMARY KEY AUTOINCREMENT";
    let mut s = schema("", counted, "left", "paper_id TEXT REFERENCES papers(id)");
    s.keyed[3].notnull = Some(0);
    let ids = vec!["f1".to_string(), "f2".to_string()];
    let m = migrate_sync_schema_v2(&s, &ids, &ids, NOW);
    let lines = shown(&m.steps);
    assert_eq!(lines.len(), 12);
    assert_eq!(lines[0], "ALTER TABLE note_versions RENAME TO note_versions_old");
    assert!(lines[3].ends_with("[f1] [n1] [t] [text] [agent] [c]"));
    assert_eq!(lines[4], "DROP TABLE note_versions_old");
    assert_eq!(lines[5], "together 2");
    assert_eq!(lines[6], "together 5");
    assert_eq!(lines[7], "ALTER TABLE \"saved_items\" RENAME TO \"saved_items_old\"");
    assert!(lines[11].starts_with("CREATE INDEX IF NOT EXISTS idx_saved_items_status"));
    let done = schema(
        &vault_statements(counted)[1],
        &versions_statements(counted)[1],
        "",
        &attachments_statements("", "REFERENCES").1[1],
    );
    assert!(migrate_sync_schema_v2(&done, &ids, &ids, NOW).steps.is_empty());
}
