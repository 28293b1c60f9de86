use zpass::categories::{create_category_db, delete_category_db, update_category_db};
use zpass::crypto::{encrypt, CryptoKey};
use zpass::db::DbState;
use zpass::entries::{entry_out, open_entry, split_legacy_otp};
use zpass::models::{
    field_from_parts, CategoryInput, ExportEntry, Field, TemplateFieldInput, TemplateInput,
};
use zpass::state::{now_secs, AppState};
use zpass::templates::{
    create_template_db, delete_template_db, list_templates_db, load_template, update_template_db,
};

/// An unlocked state over a fresh vault with a fixed key.
fn unlocked_state() -> AppState {
    let mut db = DbState::empty();
    db.initialize();
    let mut state = AppState::new(db);
    state.set_key(CryptoKey::derive("test-password", b"0123456789abcdef"));
    state
}

/// Stores an entry whose encrypted fields are `fields_json`.
fn insert_entry_raw(state: &mut AppState, id: &str, fields_json: &[u8]) {
    let key = state.get_key().unwrap();
    let enc = encrypt(&key.key, fields_json).unwrap();
    let now = now_secs().to_string();
    state.db.entries.push(ExportEntry {
        id: id.to_string(),
        category: "login".to_string(),
        title: "测试条目".to_string(),
        icon: None,
        note: None,
        otp_id: None,
        otp_mode: None,
        encrypted_data: enc,
        created_at: now.clone(),
        updated_at: now,
        deleted_at: None,
    });
}

/// Reads an entry's fields back the way the application does: decrypt,
/// parse, fill in the defaults of older data, move legacy OTP fields out.
fn decode_fields(state: &AppState, id: &str) -> Vec<Field> {
    let (row, plain) = open_entry(state, id).expect("解码条目失败");
    let parsed: Vec<serde_json::Value> = serde_json::from_slice(&plain).expect("解析字段失败");
    let fields: Vec<Field> = parsed
        .iter()
        .map(|v| {
            field_from_parts(
                v["name"].as_str().unwrap().to_string(),
                v["value"].as_str().unwrap().to_string(),
                v.get("secret").and_then(|s| s.as_bool()),
                v.get("field_type").and_then(|s| s.as_str()).map(|s| s.to_string()),
            )
        })
        .collect();
    let migrated = split_legacy_otp(fields, row.otp_id.clone(), row.otp_mode.clone());
    entry_out(&state.db, &row, migrated.fields, migrated.otp_id, migrated.otp_mode).fields
}

fn check_seeded_builtins() {
    let state = unlocked_state();
    let db = &state.db;
    assert_eq!(db.templates.len(), 4, "应种子 4 个内置模板");
    assert_eq!(db.template_fields.len(), 14, "内置模板字段应为 14 行");
    assert_eq!(db.categories.len(), 4, "应种子 4 个内置类别");
    let login = db.categories.iter().find(|c| c.id == "login").unwrap();
    assert_eq!(login.icon.as_deref(), Some("globe"), "内置类别应有图标");
    assert!(login.color.as_deref().unwrap().starts_with('#'), "内置类别应有颜色");
}

#[test]
fn commands_migration_drops_template_id_and_seeds_builtin() {
    check_seeded_builtins();
}

#[test]
fn mod_migration_drops_template_id_and_seeds_builtin() {
    check_seeded_builtins();
}

fn check_category_tree() {
    let mut state = unlocked_state();
    let db = &mut state.db;

    let child = create_category_db(
        db,
        CategoryInput {
            name: "公司邮箱".into(),
            parent_id: Some("email".into()),
            icon: Some("mail".into()),
            color: Some("#ff0000".into()),
        },
    )
    .expect("创建子类别失败");
    assert_eq!(child.parent_id.as_deref(), Some("email"));

    let dup = create_category_db(
        db,
        CategoryInput { name: "公司邮箱".into(), parent_id: None, icon: None, color: None },
    );
    assert!(dup.is_err(), "重名类别应报错");

    let updated = update_category_db(
        db,
        child.id.clone(),
        CategoryInput {
            name: "办公邮箱".into(),
            parent_id: Some("email".into()),
            icon: Some("mail".into()),
            color: None,
        },
    )
    .expect("更新类别失败");
    assert_eq!(updated.name, "办公邮箱");

    let self_parent = update_category_db(
        db,
        child.id.clone(),
        CategoryInput {
            name: "办公邮箱".into(),
            parent_id: Some(child.id.clone()),
            icon: None,
            color: None,
        },
    );
    assert!(self_parent.is_err(), "类别不能作为自身的父类");

    let del_child = delete_category_db(db, "email".into());
    assert!(del_child.is_err(), "有子类别的类别删除应被阻止");

    let del_with_tmpl = delete_category_db(db, "login".into());
    assert!(del_with_tmpl.is_err(), "有模板的类别删除应被阻止");

    let del_with_entry = delete_category_db(db, "custom".into());
    assert!(del_with_entry.is_err(), "有模板的类别删除应被阻止");

    delete_category_db(db, child.id).expect("删除子类别失败");
    let del_parent = delete_category_db(db, "email".into());
    assert!(del_parent.is_err(), "有模板的 email 类别删除应被阻止");

    let tmp = create_category_db(
        db,
        CategoryInput { name: "临时类别".into(), parent_id: None, icon: None, color: None },
    )
    .expect("创建临时类别失败");
    delete_category_db(db, tmp.id).expect("删除空类别失败");
}

#[test]
fn commands_category_tree_crud_and_guards() {
    check_category_tree();
}

#[test]
fn mod_category_tree_crud_and_guards() {
    check_category_tree();
}

fn field(name: &str, field_type: &str, secret: bool) -> TemplateFieldInput {
    TemplateFieldInput { name: name.into(), field_type: field_type.into(), secret }
}

fn check_template_crud() {
    let mut state = unlocked_state();
    let input = TemplateInput {
        category_id: "custom".into(),
        name: "SSH服务器".into(),
        icon: None,
        note: None,
        fields: vec![
            field("主机", "text", false),
            field("密码", "password", true),
            field("端口", "number", false),
        ],
    };
    let t = create_template_db(&mut state.db, input.clone()).expect("创建模板失败");
    assert_eq!(t.category_name, "其它");
    assert_eq!(t.fields.len(), 3);
    assert_eq!(t.fields[0].name, "主机");
    assert_eq!(t.fields[2].field_type, "number");

    let got = load_template(&state.db, &t.id).expect("获取模板失败");
    assert_eq!(got.fields[2].name, "端口", "字段顺序应按 sort_order 保留");

    let upd_input = TemplateInput {
        category_id: "custom".into(),
        name: "SSH服务器2".into(),
        icon: None,
        note: None,
        fields: vec![field("主机", "text", false)],
    };
    let updated =
        update_template_db(&mut state.db, t.id.clone(), upd_input).expect("更新模板失败");
    assert_eq!(updated.name, "SSH服务器2");
    assert_eq!(updated.fields.len(), 1);

    let bad_type = create_template_db(
        &mut state.db,
        TemplateInput {
            category_id: "custom".into(),
            name: "坏模板".into(),
            icon: None,
            note: None,
            fields: vec![field("x", "hack", false)],
        },
    );
    assert!(bad_type.is_err(), "非法字段类型应报错");

    let empty_name = create_template_db(
        &mut state.db,
        TemplateInput {
            category_id: "custom".into(),
            name: "".into(),
            icon: None,
            note: None,
            fields: vec![field("x", "text", false)],
        },
    );
    assert!(empty_name.is_err(), "空模板名应报错");

    let dup_field = create_template_db(
        &mut state.db,
        TemplateInput {
            category_id: "custom".into(),
            name: "重名模板".into(),
            icon: None,
            note: None,
            fields: vec![field("a", "text", false), field("a", "text", false)],
        },
    );
    assert!(dup_field.is_err(), "重名字段应报错");

    let list = list_templates_db(&state.db).expect("列表失败");
    assert!(list.iter().any(|x| x.id == t.id), "列表应包含新模板");

    delete_template_db(&mut state.db, t.id).expect("删除模板失败");
}

#[test]
fn commands_template_crud_with_fields_and_order() {
    check_template_crud();
}

#[test]
fn mod_template_crud_with_fields_and_order() {
    check_template_crud();
}

fn check_snapshot_roundtrip() {
    let mut state = unlocked_state();
    let fields_json = serde_json::to_vec(&serde_json::Value::Array(vec![
        serde_json::Value::Object(
            [
                ("name".to_string(), serde_json::Value::String("URL".into())),
                ("value".to_string(), serde_json::Value::String("https://example.com".into())),
                ("secret".to_string(), serde_json::Value::Bool(false)),
                ("field_type".to_string(), serde_json::Value::String("url".into())),
            ]
            .into_iter()
            .collect(),
        ),
        serde_json::Value::Object(
            [
                ("name".to_string(), serde_json::Value::String("用户名".into())),
                ("value".to_string(), serde_json::Value::String("alice".into())),
                ("secret".to_string(), serde_json::Value::Bool(false)),
                ("field_type".to_string(), serde_json::Value::String("text".into())),
            ]
            .into_iter()
            .collect(),
        ),
        serde_json::Value::Object(
            [
                ("name".to_string(), serde_json::Value::String("密码".into())),
                ("value".to_string(), serde_json::Value::String("s3cret".into())),
                ("secret".to_string(), serde_json::Value::Bool(true)),
                ("field_type".to_string(), serde_json::Value::String("password".into())),
            ]
            .into_iter()
            .collect(),
        ),
    ]))
    .unwrap();
    let id = "snapshot-entry";
    insert_entry_raw(&mut state, id, &fields_json);

    let fields = decode_fields(&state, id);
    assert_eq!(fields.len(), 3);
    let url_field = fields.iter().find(|f| f.name == "URL").unwrap();
    assert_eq!(url_field.field_type, "url", "字段类型快照应随解密返回");
    let pw = fields.iter().find(|f| f.name == "密码").unwrap();
    assert_eq!(pw.field_type, "password");
    assert_eq!(pw.value, "s3cret");
}

#[test]
fn commands_snapshot_roundtrip_preserves_field_type() {
    check_snapshot_roundtrip();
}

#[test]
fn mod_snapshot_roundtrip_preserves_field_type() {
    check_snapshot_roundtrip();
}

fn check_old_payload() {
    let mut state = unlocked_state();
    let old_fields = serde_json::Value::Array(vec![
        serde_json::Value::Object(
            [
                ("name".to_string(), serde_json::Value::String("用户名".into())),
                ("value".to_string(), serde_json::Value::String("olduser".into())),
                ("secret".to_string(), serde_json::Value::Bool(false)),
            ]
            .into_iter()
            .collect(),
        ),
        serde_json::Value::Object(
            [
                ("name".to_string(), serde_json::Value::String("密码".into())),
                ("value".to_string(), serde_json::Value::String("oldpass".into())),
                ("secret".to_string(), serde_json::Value::Bool(true)),
            ]
            .into_iter()
            .collect(),
        ),
    ]);
    let data_json = serde_json::to_vec(&old_fields).unwrap();
    let id = "legacy-entry";
    insert_entry_raw(&mut state, id, &data_json);

    let fields = decode_fields(&state, id);
    for f in &fields {
        assert_eq!(f.field_type, "text", "旧数据无 field_type 应默认 text");
    }
}

#[test]
fn commands_old_field_payload_defaults_to_text() {
    check_old_payload();
}

#[test]
fn mod_old_field_payload_defaults_to_text() {
    check_old_payload();
}
