use zpass::auth::{heartbeat, lock, set_master_password, unlock};
use zpass::categories::{create_category, delete_category, list_categories};
use zpass::crypto::{decrypt, encrypt, CryptoKey};
use zpass::db::DbState;
use zpass::entries::{
    create_entry, delete_entry, empty_trash, list_entry_ids, open_entry, permanently_delete_entry,
    restore_entry, split_legacy_otp, update_entry,
};
use zpass::export::{export_file_name, export_snapshot, import_data};
use zpass::models::{
    field_from_parts, validate_field_type, CategoryInput, EntryInput, ExportSetting, Field,
    OtpEntryInput, TemplateFieldInput, TemplateInput,
};
use zpass::otp::{
    create_otp_entry, delete_otp_entry, file_text, get_otp_entries, import_otp_entries,
    update_otp_entry,
};
use zpass::qr::{
    decode_picture_qr, decode_qr_image_bytes, decode_screen_qr, rgba_to_luma, threshold_grid,
};
use zpass::settings::{get_settings, update_setting};
use zpass::state::{auto_lock_tick, now_secs, AppState};
use zpass::stats::{get_category_stats, get_tag_stats};
use zpass::tags::{create_tag, delete_tag, get_tags};
use zpass::templates::{create_template, delete_template, update_template};

fn fresh_vault() -> AppState {
    let mut db = DbState::empty();
    db.initialize();
    AppState::new(db)
}

fn vault_with_password(password: &str) -> AppState {
    let mut state = fresh_vault();
    set_master_password(&mut state, password.to_string()).unwrap();
    state
}

fn entry_input(title: &str, tags: &[&str]) -> EntryInput {
    EntryInput {
        category: "login".into(),
        title: title.into(),
        icon: None,
        note: Some("备注".into()),
        otp_id: None,
        otp_mode: None,
        fields: vec![],
        tags: tags.iter().map(|t| t.to_string()).collect(),
    }
}

#[test]
fn encrypted_record_decrypts_to_its_plaintext() {
    let key = CryptoKey::derive("pw", b"0123456789abcdef");
    let text = encrypt(&key.key, b"hello vault").unwrap();
    assert_eq!(text.len(), 52, "base64 of 12 + 11 + 16 bytes");
    assert_eq!(decrypt(&key.key, &text).unwrap(), b"hello vault".to_vec());
    let again = encrypt(&key.key, b"hello vault").unwrap();
    assert_ne!(text, again, "每条记录独立 nonce");
}

#[test]
fn decrypt_reports_each_failure() {
    let key = CryptoKey::derive("pw", b"0123456789abcdef");
    let other = CryptoKey::derive("other", b"0123456789abcdef");
    let text = encrypt(&key.key, b"secret").unwrap();
    assert_eq!(decrypt(&other.key, &text).unwrap_err(), "解密失败（主密码错误或数据损坏）");
    assert_eq!(decrypt(&key.key, "00ff").unwrap_err(), "数据格式错误");
    assert!(decrypt(&key.key, "zz").unwrap_err().starts_with("解码失败: "));
}

#[test]
fn master_password_is_set_once_and_unlocks() {
    let mut state = fresh_vault();
    assert!(set_master_password(&mut state, "correct horse".into()).is_ok());
    assert!(state.crypto_key.is_some());
    assert_eq!(
        set_master_password(&mut state, "another".into()).unwrap_err(),
        "主密码已设置，不可更改"
    );
    let first_key = state.crypto_key.as_ref().unwrap().key;
    lock(&mut state);
    assert!(state.crypto_key.is_none());
    assert_eq!(unlock(&mut state, "wrong".into()).unwrap_err(), "主密码错误");
    assert!(state.crypto_key.is_none());
    unlock(&mut state, "correct horse".into()).unwrap();
    assert_eq!(state.crypto_key.as_ref().unwrap().key, first_key);
}

#[test]
fn unlock_without_master_password_fails() {
    let mut state = fresh_vault();
    assert_eq!(unlock(&mut state, "x".into()).unwrap_err(), "尚未设置主密码");
}

#[test]
fn locked_vault_refuses_commands() {
    let mut state = vault_with_password("pw");
    lock(&mut state);
    assert_eq!(get_tags(&state).unwrap_err(), "应用已锁定");
    assert_eq!(list_categories(&state).unwrap_err(), "应用已锁定");
    assert_eq!(create_entry(&mut state, &entry_input("t", &[]), b"[]").unwrap_err(), "应用已锁定");
    assert_eq!(get_otp_entries(&state).unwrap_err(), "应用已锁定");
    assert_eq!(export_snapshot(&state).unwrap_err(), "应用已锁定");
    assert!(get_settings(&state).is_ok(), "设置在锁定时仍可读取");
}

#[test]
fn auto_lock_locks_after_timeout() {
    let mut state = vault_with_password("pw");
    state.last_activity = 100;
    assert_eq!(auto_lock_tick(&mut state, 120, 30), (2, false));
    assert!(state.crypto_key.is_some());
    assert_eq!(auto_lock_tick(&mut state, 130, 30), (2, true));
    assert!(state.crypto_key.is_none());
    assert_eq!(auto_lock_tick(&mut state, 500, 30), (30, false));
    heartbeat(&mut state);
    assert!(state.last_activity >= 100);
}

#[test]
fn auto_lock_ignores_a_clock_that_went_back() {
    let mut state = vault_with_password("pw");
    state.last_activity = 1000;
    assert_eq!(auto_lock_tick(&mut state, 10, 0), (2, true));
}

#[test]
fn seeding_twice_changes_nothing() {
    let mut db = DbState::empty();
    db.initialize();
    let counts = (db.categories.len(), db.templates.len(), db.template_fields.len(), db.settings.len());
    db.initialize();
    assert_eq!(counts, (db.categories.len(), db.templates.len(), db.template_fields.len(), db.settings.len()));
    assert_eq!(counts, (4, 4, 14, 3));
    assert!(db.check_wf());
}

#[test]
fn check_wf_finds_duplicate_ids() {
    let mut db = DbState::empty();
    db.initialize();
    let dup = db.categories[0].clone();
    db.categories.push(dup);
    assert!(!db.check_wf());
}

#[test]
fn create_tag_finds_existing_tag_by_name() {
    let mut state = vault_with_password("pw");
    let a = create_tag(&mut state, "工作", None).unwrap();
    assert!(a.color.is_none());
    assert_eq!(a.id.len(), 36);
    let b = create_tag(&mut state, "工作", Some("#123456".into())).unwrap();
    assert_eq!(a.id, b.id);
    assert!(b.color.is_none(), "返回更新颜色前的标签");
    let tags = get_tags(&state).unwrap();
    assert_eq!(tags.len(), 1);
    assert_eq!(tags[0].color.as_deref(), Some("#123456"));
}

#[test]
fn tags_are_listed_by_name() {
    let mut state = vault_with_password("pw");
    create_tag(&mut state, "b", None).unwrap();
    create_tag(&mut state, "a", None).unwrap();
    create_tag(&mut state, "c", None).unwrap();
    let names: Vec<String> = get_tags(&state).unwrap().into_iter().map(|t| t.name).collect();
    assert_eq!(names, vec!["a", "b", "c"]);
}

#[test]
fn entry_lifecycle_through_the_trash() {
    let mut state = vault_with_password("pw");
    let row = create_entry(&mut state, &entry_input("邮箱", &["工作", "私人"]), b"[]").unwrap();
    assert_eq!(row.created_at, row.updated_at);
    assert_eq!(state.db.entry_tags.len(), 2);
    let before = state.db.entries.clone();
    delete_entry(&mut state, &row.id).unwrap();
    assert!(state.db.entries[0].deleted_at.is_some());
    assert_eq!(list_entry_ids(&state, false).unwrap().len(), 0);
    assert_eq!(list_entry_ids(&state, true).unwrap(), vec![row.id.clone()]);
    restore_entry(&mut state, &row.id).unwrap();
    assert_eq!(state.db.entries.len(), before.len());
    assert_eq!(state.db.entries[0].deleted_at, before[0].deleted_at);
    assert_eq!(state.db.entries[0].updated_at, before[0].updated_at);
    permanently_delete_entry(&mut state, &row.id).unwrap();
    assert!(state.db.entries.is_empty());
    assert!(state.db.entry_tags.is_empty());
    assert_eq!(state.db.tags.len(), 2, "标签本身保留");
}

#[test]
fn empty_trash_removes_only_trashed_entries() {
    let mut state = vault_with_password("pw");
    let a = create_entry(&mut state, &entry_input("a", &["x"]), b"[]").unwrap();
    let b = create_entry(&mut state, &entry_input("b", &["x"]), b"[]").unwrap();
    delete_entry(&mut state, &a.id).unwrap();
    empty_trash(&mut state).unwrap();
    assert_eq!(state.db.entries.len(), 1);
    assert_eq!(state.db.entries[0].id, b.id);
    assert_eq!(state.db.entry_tags.len(), 1);
    assert_eq!(state.db.entry_tags[0].entry_id, b.id);
}

#[test]
fn update_entry_replaces_fields_and_tags() {
    let mut state = vault_with_password("pw");
    let row = create_entry(&mut state, &entry_input("a", &["x", "y"]), b"[1]").unwrap();
    let mut input = entry_input("a2", &["z"]);
    input.category = "email".into();
    let updated = update_entry(&mut state, &row.id, &input, b"[2]").unwrap();
    assert_eq!(updated.id, row.id);
    assert_eq!(updated.title, "a2");
    let (stored, plain) = open_entry(&state, &row.id).unwrap();
    assert_eq!(stored.encrypted_data, updated.encrypted_data);
    assert_eq!(stored.updated_at, updated.updated_at);
    assert_eq!(stored.title, "a2");
    assert_eq!(stored.category, "email");
    assert_eq!(stored.created_at, row.created_at);
    assert_eq!(plain, b"[2]".to_vec());
    assert_eq!(state.db.entry_tags.len(), 1);
    assert_eq!(open_entry(&state, "missing").unwrap_err(), "条目不存在");
    let data_before: Vec<String> = state.db.entries.iter().map(|e| e.encrypted_data.clone()).collect();
    assert_eq!(update_entry(&mut state, "missing", &input, b"[3]").unwrap_err(), "条目不存在");
    let data_after: Vec<String> = state.db.entries.iter().map(|e| e.encrypted_data.clone()).collect();
    assert_eq!(data_after, data_before);
}

#[test]
fn legacy_otp_fields_move_out() {
    let f = |n: &str, v: &str| Field { name: n.into(), value: v.into(), secret: false, field_type: "text".into() };
    let fields = vec![f("用户", "u"), f("OTP验证码", "otp-1"), f("OTP验证模式", "secondary")];
    let m = split_legacy_otp(fields.clone(), None, None);
    assert!(m.rewrite);
    assert_eq!(m.otp_id.as_deref(), Some("otp-1"));
    assert_eq!(m.otp_mode.as_deref(), Some("secondary"));
    assert_eq!(m.fields.len(), 1);
    let kept = split_legacy_otp(fields, Some("own".into()), None);
    assert!(!kept.rewrite);
    assert_eq!(kept.otp_id.as_deref(), Some("own"));
    assert_eq!(kept.fields.len(), 1);
    let plain = split_legacy_otp(vec![f("用户", "u")], None, None);
    assert!(!plain.rewrite);
    assert!(plain.otp_id.is_none());
}

#[test]
fn field_defaults_for_old_data() {
    let f = field_from_parts("n".into(), "v".into(), None, None);
    assert!(!f.secret);
    assert_eq!(f.field_type, "text");
    let g = field_from_parts("n".into(), "v".into(), Some(true), Some("url".into()));
    assert!(g.secret);
    assert_eq!(g.field_type, "url");
    assert!(validate_field_type("multiline"));
    assert!(!validate_field_type("hack"));
}

#[test]
fn categories_are_placed_after_their_siblings() {
    let mut state = vault_with_password("pw");
    let input = |name: &str, parent: Option<&str>| CategoryInput {
        name: name.into(),
        parent_id: parent.map(|p| p.to_string()),
        icon: None,
        color: None,
    };
    let a = create_category(&mut state, input("  甲  ", None)).unwrap();
    assert_eq!(a.name, "甲");
    assert_eq!(a.sort_order, 1, "内置类别排序为 0");
    let c1 = create_category(&mut state, input("子一", Some(&a.id))).unwrap();
    let c2 = create_category(&mut state, input("子二", Some(&a.id))).unwrap();
    assert_eq!((c1.sort_order, c2.sort_order), (0, 1));
    assert_eq!(create_category(&mut state, input("   ", None)).unwrap_err(), "类别名称不能为空");
    assert_eq!(create_category(&mut state, input("x", Some("nope"))).unwrap_err(), "父类别不存在");
    assert_eq!(create_category(&mut state, input("甲", None)).unwrap_err(), "类别已存在");
    let listed = list_categories(&state).unwrap();
    let ids: Vec<&str> = listed.iter().map(|c| c.id.as_str()).collect();
    assert_eq!(ids.len(), 7);
    assert_eq!(&ids[5..], &[a.id.as_str(), c2.id.as_str()], "同一排序按创建时间，再按表中顺序");
    assert_eq!(delete_category(&mut state, a.id.clone()).unwrap_err(), "该类别下仍有子类别，请先删除");
}

#[test]
fn sort_position_overflow_is_reported() {
    let mut state = vault_with_password("pw");
    for c in state.db.categories.iter_mut() {
        c.sort_order = i64::MAX;
    }
    let r = create_category(
        &mut state,
        CategoryInput { name: "溢出".into(), parent_id: None, icon: None, color: None },
    );
    assert_eq!(
        r.unwrap_err(),
        "Invalid column type Real at index: 0, name: COALESCE(MAX(sort_order), -1) + 1"
    );
}

#[test]
fn category_with_live_entries_cannot_be_deleted() {
    let mut state = vault_with_password("pw");
    let cat = create_category(
        &mut state,
        CategoryInput { name: "银行".into(), parent_id: None, icon: None, color: None },
    )
    .unwrap();
    let mut input = entry_input("卡", &[]);
    input.category = cat.id.clone();
    let e = create_entry(&mut state, &input, b"[]").unwrap();
    assert_eq!(delete_category(&mut state, cat.id.clone()).unwrap_err(), "该类别下仍有密码条目，无法删除");
    delete_entry(&mut state, &e.id).unwrap();
    assert!(delete_category(&mut state, cat.id).is_ok(), "回收站中的条目不阻止删除");
}

#[test]
fn builtin_templates_cannot_change() {
    let mut state = vault_with_password("pw");
    let input = TemplateInput {
        category_id: "login".into(),
        name: "x".into(),
        icon: None,
        note: None,
        fields: vec![TemplateFieldInput { name: "a".into(), field_type: "text".into(), secret: false }],
    };
    assert_eq!(update_template(&mut state, "tmpl-login".into(), input).unwrap_err(), "内置模板不可编辑");
    assert_eq!(delete_template(&mut state, "tmpl-login".into()).unwrap_err(), "内置模板不可删除");
    assert_eq!(state.db.templates.len(), 4);
}

#[test]
fn template_requests_are_checked_in_order() {
    let mut state = vault_with_password("pw");
    let f = |n: &str, t: &str| TemplateFieldInput { name: n.into(), field_type: t.into(), secret: false };
    let req = |cat: &str, name: &str, fields: Vec<TemplateFieldInput>| TemplateInput {
        category_id: cat.into(),
        name: name.into(),
        icon: None,
        note: None,
        fields,
    };
    assert_eq!(create_template(&mut state, req("custom", " ", vec![f("a", "text")])).unwrap_err(), "模板名称不能为空");
    assert_eq!(create_template(&mut state, req("none", "t", vec![f("a", "text")])).unwrap_err(), "模板类别不存在");
    assert_eq!(create_template(&mut state, req("custom", "t", vec![])).unwrap_err(), "模板至少需要一个字段");
    assert_eq!(create_template(&mut state, req("custom", "t", vec![f(" ", "text")])).unwrap_err(), "字段名称不能为空");
    assert_eq!(
        create_template(&mut state, req("custom", "t", vec![f("a", "text"), f(" a ", "url")])).unwrap_err(),
        "字段名重复:  a "
    );
    assert_eq!(create_template(&mut state, req("custom", "t", vec![f("a", "hack")])).unwrap_err(), "不支持的字段类型: hack");
    let t = create_template(&mut state, req("custom", "t", vec![f("a", "text"), f("b", "date")])).unwrap();
    assert!(!t.is_builtin);
    assert_eq!(t.fields.iter().map(|x| x.name.as_str()).collect::<Vec<_>>(), vec!["a", "b"]);
    assert_eq!(update_template(&mut state, "no-such".into(), req("custom", "t", vec![f("a", "text")])).unwrap_err(), "模板不存在");
}

#[test]
fn stats_count_entries_and_links() {
    let mut state = vault_with_password("pw");
    let a = create_entry(&mut state, &entry_input("a", &["t1"]), b"[]").unwrap();
    create_entry(&mut state, &entry_input("b", &["t1", "t2"]), b"[]").unwrap();
    let mut other = entry_input("c", &[]);
    other.category = "email".into();
    create_entry(&mut state, &other, b"[]").unwrap();
    delete_entry(&mut state, &a.id).unwrap();
    let cats = get_category_stats(&state).unwrap();
    let pairs: Vec<(String, i64)> = cats.into_iter().map(|c| (c.category, c.count)).collect();
    assert_eq!(pairs, vec![("email".to_string(), 1), ("login".to_string(), 1)]);
    let tags = get_tag_stats(&state).unwrap();
    let counts: Vec<(String, i64)> = tags.into_iter().map(|t| (t.name, t.count)).collect();
    assert_eq!(counts, vec![("t1".to_string(), 2), ("t2".to_string(), 1)], "回收站中的条目仍计入标签");
}

#[test]
fn settings_read_what_was_written() {
    let mut state = fresh_vault();
    let s = get_settings(&state).unwrap();
    assert_eq!((s.lock_timeout, s.theme.as_str(), s.storage_path.as_str()), (30, "light", ""));
    update_setting(&mut state, "lock_timeout".into(), "120".into()).unwrap();
    update_setting(&mut state, "theme".into(), "dark".into()).unwrap();
    let s = get_settings(&state).unwrap();
    assert_eq!((s.lock_timeout, s.theme.as_str()), (120, "dark"));
    update_setting(&mut state, "lock_timeout".into(), "soon".into()).unwrap();
    assert_eq!(get_settings(&state).unwrap().lock_timeout, 30);
    update_setting(&mut state, "custom".into(), "1".into()).unwrap();
    assert_eq!(state.db.settings.len(), 4);
}

fn otp(issuer: &str) -> OtpEntryInput {
    OtpEntryInput {
        issuer: issuer.into(),
        account: "me".into(),
        secret: "JBSWY3DPEHPK3PXP".into(),
        interval: 30,
        digits: 6,
        algorithm: "SHA1".into(),
    }
}

#[test]
fn otp_entries_create_update_delete() {
    let mut state = vault_with_password("pw");
    let o = create_otp_entry(&mut state, otp("GitHub")).unwrap();
    assert_eq!(o.issuer, "GitHub");
    let mut changed = otp("GitLab");
    changed.digits = 8;
    let u = update_otp_entry(&mut state, o.id.clone(), changed).unwrap();
    assert_eq!((u.issuer.as_str(), u.digits, u.created_at.as_str()), ("GitLab", 8, o.created_at.as_str()));
    assert_eq!(update_otp_entry(&mut state, "missing".into(), otp("x")).unwrap_err(), "Query returned no rows");
    delete_otp_entry(&mut state, o.id).unwrap();
    assert!(get_otp_entries(&state).unwrap().is_empty());
}

#[test]
fn otp_import_counts_and_lists_newest_first() {
    let mut state = vault_with_password("pw");
    assert_eq!(import_otp_entries(&mut state, vec![otp("a"), otp("b"), otp("c")]).unwrap(), 3);
    state.db.otp_entries[0].created_at = "100".into();
    state.db.otp_entries[1].created_at = "300".into();
    state.db.otp_entries[2].created_at = "200".into();
    let issuers: Vec<String> = get_otp_entries(&state).unwrap().into_iter().map(|o| o.issuer).collect();
    assert_eq!(issuers, vec!["b", "c", "a"]);
}

#[test]
fn file_text_drops_the_byte_order_mark() {
    assert_eq!(file_text(&[0xEF, 0xBB, 0xBF, b'o', b'k']), "ok");
    assert_eq!(file_text("密码".as_bytes()), "密码");
    assert_eq!(file_text(&[b'a', 0xFF]), "a\u{FFFD}");
}

#[test]
fn export_file_is_named_by_time() {
    assert_eq!(export_file_name(1700000000), "zpass_export_1700000000.json");
    assert!(now_secs() > 1_600_000_000);
}

#[test]
fn export_then_import_into_empty_vault_restores_it() {
    let mut source = vault_with_password("master");
    create_tag(&mut source, "共享", Some("#00ff00".into())).unwrap();
    let e = create_entry(&mut source, &entry_input("银行", &["共享"]), b"[\"data\"]").unwrap();
    update_setting(&mut source, "theme".into(), "dark".into()).unwrap();
    let data = export_snapshot(&source).unwrap();
    assert_eq!(data.version, 1);

    let mut target = fresh_vault();
    let r = import_data(&mut target, data, "master").unwrap();
    assert_eq!((r.imported, r.replaced), (1, 0));
    assert_eq!(target.db.entries.len(), 1);
    assert_eq!(target.db.entries[0].id, e.id);
    assert_eq!(target.db.entries[0].encrypted_data, source.db.entries[0].encrypted_data);
    assert_eq!(target.db.tags.len(), source.db.tags.len());
    assert_eq!(target.db.tags[0].color, source.db.tags[0].color);
    assert_eq!(target.db.entry_tags.len(), 1);
    assert_eq!(get_settings(&target).unwrap().theme, "dark");
    assert_eq!(
        target.crypto_key.as_ref().unwrap().key,
        source.crypto_key.as_ref().unwrap().key,
        "导入后以导入文件的主密码解锁"
    );
    let (_, plain) = open_entry(&target, &e.id).unwrap();
    assert_eq!(plain, b"[\"data\"]".to_vec());
}

#[test]
fn import_into_vault_with_master_merges_entries() {
    let mut source = vault_with_password("old-master");
    create_entry(&mut source, &entry_input("银行", &["共享"]), b"[\"from export\"]").unwrap();
    let data = export_snapshot(&source).unwrap();

    let mut target = vault_with_password("new-master");
    let old = create_entry(&mut target, &entry_input("银行", &[]), b"[\"old\"]").unwrap();
    let r = import_data(&mut target, data, "old-master").unwrap();
    assert_eq!((r.imported, r.replaced), (1, 1));
    assert_eq!(target.db.entries.len(), 1);
    assert_ne!(target.db.entries[0].id, old.id);
    let (_, plain) = open_entry(&target, &target.db.entries[0].id.clone()).unwrap();
    assert_eq!(plain, b"[\"from export\"]".to_vec(), "以当前密钥重新加密");
    assert_eq!(target.db.tags.len(), 1);
    assert_eq!(target.db.tags[0].name, "共享");
}

#[test]
fn import_refusals() {
    let source = vault_with_password("m");
    let mut data = export_snapshot(&source).unwrap();
    let mut target = fresh_vault();
    assert_eq!(import_data(&mut target, data.clone(), "wrong").unwrap_err(), "主密码错误");
    data.version = 2;
    assert_eq!(import_data(&mut target, data.clone(), "m").unwrap_err(), "不支持的导入文件版本");
    data.version = 1;
    let master = data.master_key.take();
    assert_eq!(import_data(&mut target, data.clone(), "m").unwrap_err(), "导入文件中没有主密码信息");
    let mut m = master.unwrap();
    m.salt = "xyz".into();
    data.master_key = Some(m);
    assert_eq!(import_data(&mut target, data.clone(), "m").unwrap_err(), "salt 解析失败");
    let mut locked = vault_with_password("m");
    lock(&mut locked);
    let good = export_snapshot(&source).unwrap();
    assert_eq!(import_data(&mut locked, good, "m").unwrap_err(), "应用已锁定，请先解锁");
}

#[test]
fn settings_in_export_overwrite_on_restore() {
    let mut source = vault_with_password("m");
    source.db.settings.push(ExportSetting { key: "extra".into(), value: "1".into() });
    let data = export_snapshot(&source).unwrap();
    let mut target = fresh_vault();
    import_data(&mut target, data, "m").unwrap();
    assert_eq!(target.db.settings.len(), 4);
}

/// The 21 x 21 QR code of the text "rqrr" (from the decoder's documentation).
const QR_RQRR: [[u8; 21]; 21] = [
    [1, 1, 1, 1, 1, 1, 1, 0, 0, 0, 1, 0, 0, 0, 1, 1, 1, 1, 1, 1, 1],
    [1, 0, 0, 0, 0, 0, 1, 0, 1, 1, 1, 0, 0, 0, 1, 0, 0, 0, 0, 0, 1],
    [1, 0, 1, 1, 1, 0, 1, 0, 0, 1, 0, 1, 1, 0, 1, 0, 1, 1, 1, 0, 1],
    [1, 0, 1, 1, 1, 0, 1, 0, 0, 0, 0, 0, 1, 0, 1, 0, 1, 1, 1, 0, 1],
    [1, 0, 1, 1, 1, 0, 1, 0, 1, 1, 0, 1, 1, 0, 1, 0, 1, 1, 1, 0, 1],
    [1, 0, 0, 0, 0, 0, 1, 0, 0, 1, 1, 1, 0, 0, 1, 0, 0, 0, 0, 0, 1],
    [1, 1, 1, 1, 1, 1, 1, 0, 1, 0, 1, 0, 1, 0, 1, 1, 1, 1, 1, 1, 1],
    [0, 0, 0, 0, 0, 0, 0, 0, 0, 0, 1, 0, 0, 0, 0, 0, 0, 0, 0, 0, 0],
    [1, 0, 1, 0, 1, 0, 1, 0, 0, 0, 0, 0, 1, 0, 0, 0, 1, 0, 0, 1, 0],
    [1, 0, 0, 1, 1, 0, 0, 0, 0, 0, 0, 1, 0, 1, 0, 1, 0, 1, 0, 0, 1],
    [0, 1, 0, 1, 1, 0, 1, 1, 0, 1, 1, 1, 0, 1, 1, 1, 0, 1, 1, 1, 1],
    [1, 1, 0, 0, 0, 1, 0, 0, 1, 1, 1, 1, 1, 1, 0, 1, 1, 0, 0, 1, 1],
    [0, 0, 1, 0, 1, 1, 1, 0, 1, 0, 0, 1, 0, 1, 1, 1, 0, 1, 0, 0, 1],
    [0, 0, 0, 0, 0, 0, 0, 0, 1, 1, 1, 0, 0, 0, 1, 0, 0, 1, 0, 0, 1],
    [1, 1, 1, 1, 1, 1, 1, 0, 0, 1, 1, 0, 1, 0, 0, 0, 1, 0, 0, 1, 1],
    [1, 0, 0, 0, 0, 0, 1, 0, 0, 1, 1, 0, 0, 0, 1, 0, 0, 0, 0, 1, 0],
    [1, 0, 1, 1, 1, 0, 1, 0, 1, 0, 0, 0, 1, 0, 1, 0, 1, 1, 0, 1, 1],
    [1, 0, 1, 1, 1, 0, 1, 0, 0, 1, 0, 1, 0, 1, 0, 1, 0, 1, 0, 1, 0],
    [1, 0, 1, 1, 1, 0, 1, 0, 1, 1, 0, 1, 0, 1, 1, 1, 0, 0, 0, 0, 1],
    [1, 0, 0, 0, 0, 0, 1, 0, 0, 0, 1, 1, 1, 1, 0, 1, 1, 1, 0, 1, 0],
    [1, 1, 1, 1, 1, 1, 1, 0, 1, 0, 0, 1, 0, 1, 1, 1, 0, 0, 1, 1, 1],
];

fn rgba_of(grid: &[[u8; 21]; 21]) -> Vec<u8> {
    let mut raw = Vec::new();
    for row in grid.iter() {
        for &cell in row.iter() {
            let v = if cell == 1 { 0u8 } else { 255u8 };
            raw.extend_from_slice(&[v, v, v, 255]);
        }
    }
    raw
}

#[test]
fn screenshot_qr_code_is_read() {
    let raw = rgba_of(&QR_RQRR);
    assert_eq!(decode_screen_qr(21, &raw).unwrap(), "rqrr");
}

#[test]
fn screenshot_without_qr_code_is_refused() {
    let raw = vec![255u8; 21 * 21 * 4];
    assert_eq!(decode_screen_qr(21, &raw).unwrap_err(), "未检测到二维码");
}

#[test]
fn luma_and_threshold() {
    assert_eq!(rgba_to_luma(&[255, 255, 255, 0, 0, 0, 0, 0, 100, 200, 50]), vec![255, 0, 153]);
    let grid = threshold_grid(&vec![0, 200, 127, 128], 2);
    assert_eq!(grid, vec![true, false, true, false]);
}

/// The QR code drawn at `scale` pixels per module with a quiet zone of four modules.
fn picture_of(grid: &[[u8; 21]; 21], scale: usize) -> (u32, Vec<u8>) {
    let side = (21 + 8) * scale;
    let mut raw = Vec::with_capacity(side * side * 4);
    for py in 0..side {
        for px in 0..side {
            let (mx, my) = (px / scale, py / scale);
            let dark = (4..25).contains(&mx) && (4..25).contains(&my) && grid[my - 4][mx - 4] == 1;
            let v = if dark { 0u8 } else { 255u8 };
            raw.extend_from_slice(&[v, v, v, 255]);
        }
    }
    (side as u32, raw)
}

#[test]
fn picture_qr_code_is_read() {
    let (side, raw) = picture_of(&QR_RQRR, 8);
    assert_eq!(decode_picture_qr(side, side, raw).unwrap(), "rqrr");
}

#[test]
fn picture_without_qr_code_is_refused() {
    let raw = vec![255u8; 40 * 30 * 4];
    assert_eq!(decode_picture_qr(40, 30, raw).unwrap_err(), "未检测到二维码，请确保图片清晰且二维码完整");
}

#[test]
fn picture_file_bytes_are_decoded_and_read() {
    let (side, raw) = picture_of(&QR_RQRR, 8);
    let picture = image::RgbaImage::from_raw(side, side, raw).unwrap();
    let mut png = std::io::Cursor::new(Vec::new());
    picture.write_to(&mut png, image::ImageOutputFormat::Png).unwrap();
    assert_eq!(decode_qr_image_bytes(png.get_ref()).unwrap(), "rqrr");
}

#[test]
fn picture_file_bytes_that_are_no_picture_are_refused() {
    let err = decode_qr_image_bytes(b"not a picture").unwrap_err();
    assert!(err.starts_with("打开图片失败: "), "{}", err);
    let blank = image::RgbaImage::from_raw(40, 30, vec![255u8; 40 * 30 * 4]).unwrap();
    let mut png = std::io::Cursor::new(Vec::new());
    blank.write_to(&mut png, image::ImageOutputFormat::Png).unwrap();
    assert_eq!(
        decode_qr_image_bytes(png.get_ref()).unwrap_err(),
        "未检测到二维码，请确保图片清晰且二维码完整"
    );
}
