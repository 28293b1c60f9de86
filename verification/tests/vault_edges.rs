use zpass::auth::{heartbeat_at, lock, set_master_password, unlock};
use zpass::categories::{create_category, load_category, update_category};
use zpass::base64::{b64_decode, b64_encode};
use zpass::crypto::{decrypt, encrypt, hash_password, verify_password, CryptoKey};
use zpass::db::DbState;
use zpass::entries::{
    create_entry, delete_entry, entry_out, list_entry_ids, open_entry, split_legacy_otp,
};
use zpass::export::{export_snapshot, import_data_checked};
use zpass::models::{
    CategoryInput, EntryInput, ExportEntry, Field, LegacyTemplateCategory, TemplateFieldInput,
    TemplateInput, TemplateRecord,
};
use zpass::schema::{schema_steps, SchemaStep};
use zpass::state::{auto_lock_tick, AppState};
use zpass::tags::{create_tag, delete_tag, get_tags};
use zpass::templates::{create_template, get_template, list_templates};

fn vault() -> AppState {
    let mut db = DbState::empty();
    db.initialize();
    let mut state = AppState::new(db);
    set_master_password(&mut state, "pw".into()).unwrap();
    state
}

fn entry(title: &str, tags: &[&str]) -> EntryInput {
    EntryInput {
        category: "login".into(),
        title: title.into(),
        icon: None,
        note: None,
        otp_id: None,
        otp_mode: None,
        fields: vec![],
        tags: tags.iter().map(|t| t.to_string()).collect(),
    }
}

#[test]
fn unlock_reports_a_salt_that_is_no_hex() {
    let mut state = vault();
    state.db.master_key.as_mut().unwrap().salt = "zz".into();
    lock(&mut state);
    assert_eq!(unlock(&mut state, "pw".into()).unwrap_err(), "salt 解析失败");
}

#[test]
fn tag_with_a_taken_id_is_refused() {
    let mut state = vault();
    let t = create_tag(&mut state, "a", None).unwrap();
    let r = state.db.upsert_tag_with_id("b", t.id.clone());
    assert_eq!(r.unwrap_err(), "UNIQUE constraint failed: tags.id");
    assert_eq!(state.db.upsert_tag_with_id("a", "other".into()).unwrap(), t.id);
    assert_eq!(state.db.tags.len(), 1);
}

#[test]
fn entry_with_a_taken_id_is_refused() {
    let mut state = vault();
    let row = create_entry(&mut state, &entry("x", &[]), b"[]").unwrap();
    let again: ExportEntry = row.clone();
    assert_eq!(state.db.insert_entry_row(again).unwrap_err(), "UNIQUE constraint failed: entries.id");
    assert_eq!(state.db.entries.len(), 1);
}

#[test]
fn deleting_a_tag_drops_its_links() {
    let mut state = vault();
    create_entry(&mut state, &entry("x", &["a", "b"]), b"[]").unwrap();
    create_entry(&mut state, &entry("y", &["a"]), b"[]").unwrap();
    delete_tag(&mut state, "a").unwrap();
    let names: Vec<String> = get_tags(&state).unwrap().into_iter().map(|t| t.name).collect();
    assert_eq!(names, vec!["b"]);
    assert_eq!(state.db.entry_tags.len(), 1);
    delete_tag(&mut state, "missing").unwrap();
    assert_eq!(state.db.entry_tags.len(), 1);
}

#[test]
fn repeated_tag_names_link_once() {
    let mut state = vault();
    create_entry(&mut state, &entry("x", &["a", "a", "b"]), b"[]").unwrap();
    assert_eq!(state.db.tags.len(), 2);
    assert_eq!(state.db.entry_tags.len(), 2);
}

#[test]
fn category_update_errors() {
    let mut state = vault();
    let input = |name: &str| CategoryInput { name: name.into(), parent_id: None, icon: None, color: None };
    assert_eq!(update_category(&mut state, "nope".into(), input("新")).unwrap_err(), "类别不存在");
    assert_eq!(update_category(&mut state, "login".into(), input("邮箱")).unwrap_err(), "类别已存在");
    assert_eq!(update_category(&mut state, "login".into(), input(" ")).unwrap_err(), "类别名称不能为空");
    let c = update_category(&mut state, "login".into(), input(" 网站 ")).unwrap();
    assert_eq!(c.name, "网站");
    assert_eq!(load_category(&state.db, "login").unwrap().name, "网站");
    let created = create_category(&mut state, input("甲")).unwrap();
    assert_eq!(created.id.len(), 36);
    assert_eq!(created.created_at.parse::<u64>().unwrap() > 0, true);
}

#[test]
fn legacy_template_categories_are_folded_in() {
    let mut db = DbState::empty();
    db.template_categories.push(LegacyTemplateCategory {
        id: "cat-builtin".into(),
        name: "内置".into(),
        icon: None,
        created_at: "1".into(),
    });
    db.template_categories.push(LegacyTemplateCategory {
        id: "cat-work".into(),
        name: "工作".into(),
        icon: Some("briefcase".into()),
        created_at: "2".into(),
    });
    db.templates.push(TemplateRecord {
        id: "tmpl-login".into(),
        category_id: "cat-builtin".into(),
        name: "登录".into(),
        icon: None,
        note: None,
        created_at: "1".into(),
        updated_at: "1".into(),
    });
    db.initialize();
    assert_eq!(db.categories.len(), 5);
    let work = db.categories.iter().find(|c| c.id == "cat-work").unwrap();
    assert_eq!((work.sort_order, work.icon.as_deref(), work.parent_id.is_none()), (100, Some("briefcase"), true));
    assert!(db.categories.iter().all(|c| c.id != "cat-builtin"));
    let login = db.templates.iter().find(|t| t.id == "tmpl-login").unwrap();
    assert_eq!(login.category_id, "login");
    assert_eq!(db.templates.len(), 4);
}

#[test]
fn template_of_a_removed_category_cannot_load() {
    let mut state = vault();
    let t = create_template(
        &mut state,
        TemplateInput {
            category_id: "custom".into(),
            name: "t".into(),
            icon: None,
            note: None,
            fields: vec![TemplateFieldInput { name: "a".into(), field_type: "text".into(), secret: true }],
        },
    )
    .unwrap();
    assert!(t.fields[0].secret);
    assert_eq!(get_template(&state, "tmpl-email".into()).unwrap().category_name, "邮箱");
    assert!(get_template(&state, "tmpl-email".into()).unwrap().is_builtin);
    state.db.categories.retain(|c| c.id != "custom");
    assert_eq!(get_template(&state, t.id.clone()).unwrap_err(), "模板不存在");
    assert_eq!(list_templates(&state).unwrap_err(), "模板不存在");
}

#[test]
fn templates_are_listed_oldest_first() {
    let mut state = vault();
    for (i, t) in state.db.templates.iter_mut().enumerate() {
        t.created_at = format!("{}", 9 - i);
    }
    let ids: Vec<String> = list_templates(&state).unwrap().into_iter().map(|t| t.id).collect();
    assert_eq!(ids, vec!["tmpl-custom", "tmpl-email", "tmpl-database", "tmpl-login"]);
}

#[test]
fn migrated_entry_is_stored_and_shown_with_its_tags() {
    let mut state = vault();
    let json = br#"[{"name":"OTP\xe9\xaa\x8c\xe8\xaf\x81\xe7\xa0\x81","value":"otp-7"}]"#;
    let row = create_entry(&mut state, &entry("x", &["b", "a"]), json).unwrap();
    let fields = vec![Field {
        name: "OTP验证码".into(),
        value: "otp-7".into(),
        secret: false,
        field_type: "text".into(),
    }];
    let m = split_legacy_otp(fields, row.otp_id.clone(), row.otp_mode.clone());
    assert!(m.rewrite);
    let key: CryptoKey = state.get_key().unwrap();
    state.db.store_migrated_entry(&key, &row.id, &m.otp_id, &m.otp_mode, b"[]");
    let (stored, plain) = open_entry(&state, &row.id).unwrap();
    assert_eq!(stored.otp_id.as_deref(), Some("otp-7"));
    assert_eq!(plain, b"[]".to_vec());
    let out = entry_out(&state.db, &stored, m.fields, m.otp_id, m.otp_mode);
    let names: Vec<String> = out.tags.into_iter().map(|t| t.name).collect();
    assert_eq!(names, vec!["b", "a"], "按标签表顺序");
    assert!(out.fields.is_empty());
}

#[test]
fn template_row_with_a_taken_id_is_refused() {
    let mut state = vault();
    let taken = state.db.templates[0].clone();
    assert_eq!(
        state.db.add_template_row(taken).unwrap_err(),
        "创建模板失败: UNIQUE constraint failed: templates.id"
    );
}

#[test]
fn import_with_an_unusable_salt_does_nothing() {
    let source = vault();
    let mut data = export_snapshot(&source).unwrap();
    data.master_key.as_mut().unwrap().salt = "0011".into();
    let mut db = DbState::empty();
    db.initialize();
    let mut target = AppState::new(db);
    let tags_before = target.db.tags.len();
    assert!(import_data_checked(&mut target, data.clone(), "pw").is_none());
    assert!(target.crypto_key.is_none());
    assert!(target.db.master_key.is_none());
    assert_eq!(target.db.tags.len(), tags_before);
    assert_eq!(
        import_data_checked(&mut target, data.clone(), "wrong").unwrap().unwrap_err(),
        "主密码错误"
    );
    data.version = 2;
    assert_eq!(
        import_data_checked(&mut target, data, "pw").unwrap().unwrap_err(),
        "不支持的导入文件版本"
    );
}

#[test]
fn import_checked_runs_a_usable_import() {
    let source = vault();
    let data = export_snapshot(&source).unwrap();
    let mut db = DbState::empty();
    db.initialize();
    let mut target = AppState::new(db);
    let r = import_data_checked(&mut target, data, "pw").unwrap().unwrap();
    assert_eq!((r.imported, r.replaced), (0, 0));
    assert_eq!(target.crypto_key.as_ref().unwrap().key, source.crypto_key.as_ref().unwrap().key);
}

#[test]
fn auto_lock_run_locks_within_two_seconds_of_the_deadline() {
    let mut state = vault();
    heartbeat_at(&mut state, 1000);
    let mut now = 1001;
    let mut locked_at = None;
    for _ in 0..40 {
        let (wait, locked) = auto_lock_tick(&mut state, now, 30);
        if locked {
            locked_at = Some(now);
            break;
        }
        assert!(now < 1030, "never locked before the timeout");
        assert_eq!(wait, 2);
        now += wait;
    }
    let t = locked_at.unwrap();
    assert!(t >= 1030 && t < 1032);
    assert!(state.crypto_key.is_none());
    assert_eq!(auto_lock_tick(&mut state, t + 2, 30), (30, false));
}

#[test]
fn splitting_legacy_otp_fields_twice_is_splitting_once() {
    let f = |n: &str, v: &str| Field { name: n.into(), value: v.into(), secret: false, field_type: "text".into() };
    let once = split_legacy_otp(
        vec![f("用户名", "a"), f("OTP验证码", "otp-1"), f("OTP验证模式", "totp"), f("OTP验证码", "otp-2")],
        None,
        None,
    );
    assert!(once.rewrite);
    assert_eq!(once.otp_id.as_deref(), Some("otp-1"));
    let twice = split_legacy_otp(once.fields.clone(), once.otp_id.clone(), once.otp_mode.clone());
    assert!(!twice.rewrite);
    assert_eq!(twice.fields.len(), 1);
    assert_eq!(twice.fields[0].name, "用户名");
    assert_eq!(twice.otp_id, once.otp_id);
    assert_eq!(twice.otp_mode.as_deref(), Some("totp"));
}

#[test]
fn trashed_entry_leaves_the_live_listing() {
    let mut state = vault();
    let a = create_entry(&mut state, &entry("a", &[]), b"[]").unwrap();
    let b = create_entry(&mut state, &entry("b", &[]), b"[]").unwrap();
    delete_entry(&mut state, &a.id).unwrap();
    let live = list_entry_ids(&state, false).unwrap();
    assert_eq!(live, vec![b.id.clone()]);
    let all = list_entry_ids(&state, true).unwrap();
    assert!(all.contains(&a.id) && all.contains(&b.id));
}

#[test]
fn base64_known_values_and_round_trip() {
    assert_eq!(b64_encode(b""), "");
    assert_eq!(b64_encode(b"f"), "Zg==");
    assert_eq!(b64_encode(b"fo"), "Zm8=");
    assert_eq!(b64_encode(b"foo"), "Zm9v");
    assert_eq!(b64_encode(b"foobar"), "Zm9vYmFy");
    assert_eq!(b64_encode(&[0xfb, 0xff, 0xbf]), "+/+/");
    assert_eq!(b64_decode("Zm9vYmE=").unwrap(), b"fooba".to_vec());
    assert_eq!(b64_decode("Zm9vYg==").unwrap(), b"foob".to_vec());
    assert!(b64_decode("Zm9").is_none());
    assert!(b64_decode("Zm9v!A==").is_none());
    assert!(b64_decode("密码密码").is_none());
    let all: Vec<u8> = (0..=255u8).collect();
    assert_eq!(b64_decode(&b64_encode(&all)).unwrap(), all);
}

#[test]
fn records_are_stored_as_base64_of_nonce_and_ciphertext() {
    let key = CryptoKey::derive("pw", b"0123456789abcdef");
    let text = encrypt(&key.key, b"hello").unwrap();
    let raw = b64_decode(&text).unwrap();
    assert_eq!(raw.len(), 12 + 5 + 16);
    assert_eq!(decrypt(&key.key, &text).unwrap(), b"hello".to_vec());
    assert_eq!(decrypt(&key.key, "not base64").unwrap_err(), "解码失败: 不是有效的 base64 文本");
}

#[test]
fn hash_with_a_huge_p_cost_is_refused_without_panic() {
    let hash = "$argon2id$v=19$m=65536,t=1,p=4294967295$c2FsdHNhbHQ$aGFzaGhhc2hoYXNoaGFzaA";
    assert!(!verify_password("pw", hash));
    let mut state = vault();
    let good = state.db.master_key.as_ref().unwrap().hash.clone();
    assert!(verify_password("pw", &good));
    state.db.master_key.as_mut().unwrap().hash = hash.into();
    lock(&mut state);
    assert_eq!(unlock(&mut state, "pw".into()).unwrap_err(), "主密码错误");
}

#[test]
fn otp_row_with_a_taken_id_is_refused() {
    let mut state = vault();
    let input = zpass::models::OtpEntryInput {
        issuer: "i".into(),
        account: "a".into(),
        secret: "S".into(),
        interval: 30,
        digits: 6,
        algorithm: "SHA1".into(),
    };
    let first = state.db.insert_otp_entry(&input, "taken".into(), "1".into()).unwrap();
    assert_eq!(first.id, "taken");
    assert_eq!(
        state.db.insert_otp_entry(&input, "taken".into(), "2".into()).unwrap_err(),
        "UNIQUE constraint failed: otp_entries.id"
    );
    assert_eq!(state.db.otp_entries.len(), 1);
}

#[test]
fn older_layouts_get_the_missing_columns() {
    let cols = |names: &[&str]| names.iter().map(|n| n.to_string()).collect::<Vec<String>>();
    let old = schema_steps(
        &cols(&["id", "title", "template_id"]),
        &cols(&["id", "name"]),
        &cols(&["id", "name"]),
    );
    assert!(matches!(
        old.as_slice(),
        [
            SchemaStep::AddEntryOtpColumns,
            SchemaStep::DropEntryTemplateId,
            SchemaStep::AddTemplateIcon,
            SchemaStep::AddTemplateNote,
            SchemaStep::AddTemplateCategoryIcon
        ]
    ));
    let current = schema_steps(
        &cols(&["id", "otp_id", "otp_mode"]),
        &cols(&["id", "icon", "note"]),
        &cols(&["id", "icon"]),
    );
    assert!(current.is_empty());
}

fn field(name: &str) -> TemplateFieldInput {
    TemplateFieldInput { name: name.into(), field_type: "text".into(), secret: false }
}

#[test]
fn template_fields_stop_at_the_first_taken_id() {
    let mut state = vault();
    let fields = vec![field("a"), field("b"), field("c")];
    let before = state.db.template_fields.len();
    let r = state.db.add_template_fields_with_ids("t1", &fields, vec!["x".into(), "y".into(), "x".into()]);
    assert_eq!(r.unwrap_err(), "保存模板字段失败: UNIQUE constraint failed: template_fields.id");
    assert_eq!(state.db.template_fields.len(), before + 2);
    assert_eq!(state.db.template_fields[before + 1].id, "y");
    assert_eq!(state.db.template_fields[before + 1].sort_order, 1);
    let ok = state.db.add_template_fields_with_ids("t2", &fields, vec!["p".into(), "q".into(), "r".into()]);
    assert!(ok.is_ok());
    assert_eq!(state.db.template_fields.len(), before + 5);
    assert_eq!(
        state.db.add_template_field("t3", &field("d"), 0, "q".into()).unwrap_err(),
        "保存模板字段失败: UNIQUE constraint failed: template_fields.id"
    );
    assert!(state.db.add_template_field("t3", &field("d"), 0, "fresh".into()).is_ok());
}

#[test]
fn password_hash_lays_out_salt_and_output() {
    let salt = b"0123456789abcdef";
    let h = hash_password("pw", salt);
    let key = CryptoKey::derive("pw", salt);
    let expected = format!(
        "$argon2id$v=19$m=8192,t=1,p=1${}${}",
        b64_encode(salt).trim_end_matches('='),
        b64_encode(&key.key).trim_end_matches('=')
    );
    assert_eq!(h, expected);
    assert!(verify_password("pw", &h));
    assert!(!verify_password("other", &h));
}

#[test]
fn sealed_text_is_nonce_plaintext_and_tag() {
    let key = CryptoKey::derive("pw", b"0123456789abcdef");
    for n in [0usize, 1, 2, 3, 100] {
        let pt = vec![7u8; n];
        let text = encrypt(&key.key, &pt).unwrap();
        assert_eq!(b64_decode(&text).unwrap().len(), 12 + n + 16);
    }
}

#[test]
fn delete_then_restore_gives_the_entry_back() {
    let mut state = vault();
    let a = create_entry(&mut state, &entry("a", &["t"]), b"[]").unwrap();
    let rows_before: Vec<(String, Option<String>, String)> =
        state.db.entries.iter().map(|e| (e.id.clone(), e.deleted_at.clone(), e.encrypted_data.clone())).collect();
    let links_before = state.db.entry_tags.len();
    delete_entry(&mut state, &a.id).unwrap();
    assert!(state.db.entries[0].deleted_at.is_some());
    zpass::entries::restore_entry(&mut state, &a.id).unwrap();
    let rows_after: Vec<(String, Option<String>, String)> =
        state.db.entries.iter().map(|e| (e.id.clone(), e.deleted_at.clone(), e.encrypted_data.clone())).collect();
    assert_eq!(rows_after, rows_before);
    assert_eq!(state.db.entry_tags.len(), links_before);
}
