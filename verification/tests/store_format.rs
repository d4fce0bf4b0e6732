use food_market::model::{ShoppingCart, User};
use food_market::records::{cart_to_records, records_to_cart, records_to_users, users_to_records};
use food_market::store::{load_records, save_records, Field, FieldValue};

fn field(name: &str, value: FieldValue) -> Field {
    Field { name: name.to_string(), value }
}

fn text(s: &str) -> FieldValue {
    FieldValue::Text(s.to_string())
}

fn fields_equal(a: &Field, b: &Field) -> bool {
    if a.name != b.name {
        return false;
    }
    match (&a.value, &b.value) {
        (FieldValue::Text(x), FieldValue::Text(y)) => x == y,
        (FieldValue::Number(x), FieldValue::Number(y)) => x == y,
        _ => false,
    }
}

fn records_equal(a: &Vec<Vec<Field>>, b: &Vec<Vec<Field>>) -> bool {
    a.len() == b.len()
        && a.iter().zip(b.iter()).all(|(ra, rb)| {
            ra.len() == rb.len() && ra.iter().zip(rb.iter()).all(|(fa, fb)| fields_equal(fa, fb))
        })
}

#[test]
fn save_then_load_restores_any_records() {
    let records: Vec<Vec<Field>> = vec![
        vec![field("name", text("alice")), field("password", FieldValue::Number(42))],
        vec![],
        vec![
            field("note", text("tricky := ; = \n \"text\" 12:ab")),
            field("count", FieldValue::Number(u64::MAX)),
            field("empty", text("")),
        ],
    ];
    let saved = save_records(&records);
    let loaded = load_records(&saved).expect("a saved file must load");
    assert!(records_equal(&records, &loaded));
}

#[test]
fn empty_collection_round_trips() {
    let records: Vec<Vec<Field>> = Vec::new();
    let saved = save_records(&records);
    let loaded = load_records(&saved).expect("a saved file must load");
    assert!(loaded.is_empty());
}

#[test]
fn malformed_files_are_rejected() {
    assert!(load_records("").is_none());
    assert!(load_records("garbage").is_none());
    assert!(load_records("2;").is_none());
    let saved = save_records(&vec![vec![field("k", FieldValue::Number(1))]]);
    let mut with_junk = saved.clone();
    with_junk.push('x');
    assert!(load_records(&with_junk).is_none());
}

#[test]
fn typed_collections_round_trip() {
    let users = vec![
        User { name: "alice".to_string(), password: 42 },
        User { name: "bob".to_string(), password: 7 },
    ];
    let saved = save_records(&users_to_records(&users));
    let loaded = load_records(&saved).expect("a saved file must load");
    let back = records_to_users(&loaded).expect("user records must convert back");
    assert_eq!(back.len(), 2);
    assert_eq!(back[0].name, "alice");
    assert_eq!(back[0].password, 42);
    assert_eq!(back[1].name, "bob");
    assert_eq!(back[1].password, 7);

    let cart = vec![ShoppingCart { food_name: "Pizza".to_string(), price_cents: 1250 }];
    let saved = save_records(&cart_to_records(&cart));
    let loaded = load_records(&saved).expect("a saved file must load");
    let back = records_to_cart(&loaded).expect("cart records must convert back");
    assert_eq!(back.len(), 1);
    assert_eq!(back[0].food_name, "Pizza");
    assert_eq!(back[0].price_cents, 1250);
}

#[test]
fn foreign_shapes_do_not_convert() {
    let rec = vec![vec![field("name", text("alice")), field("pin", FieldValue::Number(1))]];
    assert!(records_to_users(&rec).is_none());
    let rec = vec![vec![field("name", text("alice")), field("password", text("42")) ]];
    assert!(records_to_users(&rec).is_none());
    let rec = vec![vec![
        field("name", text("alice")),
        field("password", FieldValue::Number(4294967296)),
    ]];
    assert!(records_to_users(&rec).is_none());
}
