use bson::{Bson, Document};
use content_engine::merge::compile_patch;
use content_engine::value::Value;

fn to_bson(value: &Value) -> Bson {
    match value {
        Value::Null => Bson::Null,
        Value::Bool(flag) => Bson::Boolean(*flag),
        Value::Number(number) => Bson::Int64(*number),
        Value::Float(bits) => Bson::Double(f64::from_bits(*bits)),
        Value::Text(text) => Bson::String(text.clone()),
        Value::Array(items) => Bson::Array(items.iter().map(to_bson).collect()),
        Value::Object(fields) => {
            let mut document = Document::new();
            for (name, value) in fields {
                document.insert(name.clone(), to_bson(value));
            }
            Bson::Document(document)
        }
    }
}

fn one(field: &str, value: Bson) -> Document {
    let mut document = Document::new();
    document.insert(field, value);
    document
}

#[test]
fn the_update_document_in_the_form_of_the_store() {
    let update = compile_patch(vec![
        ("title".to_string(), Value::Text("New Title".to_string())),
        ("tags.[0]".to_string(), Value::Text("rust".to_string())),
        ("content.blocks.[kind]".to_string(), Value::Number(3)),
        ("views".to_string(), Value::Float(2.5f64.to_bits())),
        ("title".to_string(), Value::Null),
    ])
    .unwrap();

    let mut fields = Document::new();
    fields.insert("title", Bson::Null);
    fields.insert("tags.0", "rust");
    fields.insert("content.blocks.$.kind", 3i64);
    fields.insert("views", 2.5f64);
    assert_eq!(to_bson(&update.instruction()), Bson::Document(one("$set", Bson::Document(fields))));

    let conditions: Vec<Bson> = update.conditions().iter().map(to_bson).collect();
    assert_eq!(
        conditions,
        vec![
            Bson::Document(one("tags", Bson::Document(one("$type", Bson::String("array".to_string()))))),
            Bson::Document(one("tags.0", Bson::Document(one("$exists", Bson::Boolean(true))))),
            Bson::Document(one(
                "content.blocks",
                Bson::Document(one("$type", Bson::String("array".to_string())))
            )),
            Bson::Document(one("content.blocks.kind", Bson::Document(one("$exists", Bson::Boolean(true))))),
        ]
    );
}
