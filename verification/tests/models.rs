//! The list of models.

use fabrix_proxy::openai::ModelCard;
use fabrix_proxy::proxy::fabrix::ResolvedModel;
use fabrix_proxy::proxy::models::{model_card, render_model_list, to_model_list};

fn rows() -> Vec<ResolvedModel> {
    vec![
        ResolvedModel {
            alias: "fabrix-chat-4".into(),
            model_id: "0196f1fc-2858-70a9-a232-74dbddb971d0".into(),
            label: "챗 4".into(),
            description: Some("범용 대화 모델".into()),
        },
        ResolvedModel {
            alias: "fabrix-chat-lite".into(),
            model_id: "01970a3b-91d4-7c8e-9a11-2f3c4d5e6f70".into(),
            label: "라이트".into(),
            description: None,
        },
        ResolvedModel {
            alias: "fabrix-01970a3b".into(),
            model_id: "01970a3b-91d4-7c8e-9a11-2f3c4d5e6f75".into(),
            label: "사내규정".into(),
            description: Some("사내 규정 특화".into()),
        },
    ]
}

#[test]
fn model_list_envelope_is_openai_shape() {
    let list = to_model_list(&rows(), 1_700_000_000);
    assert_eq!(list.object, "list");
    assert_eq!(list.data.len(), 3);
    assert_eq!(list.data[0].id, "fabrix-chat-4");
    assert_eq!(list.data[0].object, "model");
    assert_eq!(list.data[0].owned_by, "corp");
    assert_eq!(list.data[0].created, 1_700_000_000i64);
    // A card has these four members and no other.
    let ModelCard { id: _, object: _, created: _, owned_by: _ } = &list.data[0];
}

#[test]
fn model_card_exposes_alias_not_uuid() {
    let card = format!("{:?}", model_card(&rows()[0], 1));
    assert!(card.contains("fabrix-chat-4"), "{card}");
    assert!(!card.contains("0196f1fc"), "{card}");
}

#[test]
fn empty_list_is_still_a_list() {
    let list = to_model_list(&[], 1);
    assert_eq!(list.object, "list");
    assert!(list.data.is_empty());
}

#[test]
fn render_model_list_keeps_every_model() {
    let text = render_model_list(&rows());
    assert_eq!(text.matches('←').count(), 3, "{text}");
    for m in rows() {
        assert!(text.contains(&m.alias), "{text}");
        assert!(text.contains(&m.model_id), "{text}");
        assert!(text.contains(&m.label), "{text}");
    }
}

#[test]
fn render_model_list_survives_empty_input() {
    let text = render_model_list(&[]);
    assert!(text.contains("\"object\": \"list\""), "{text}");
    assert_eq!(text.matches('←').count(), 0);
}
