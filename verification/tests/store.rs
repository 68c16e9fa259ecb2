use ringi::event::{Event, EventPayload, EventVisibility, InvocationCoordinate};
use ringi::revision::Digest;
use ringi::store::{event_from_row, event_row};
use uuid::Uuid;

fn coordinate() -> InvocationCoordinate {
    InvocationCoordinate {
        dossier_id: Uuid::new_v4().as_u128(),
        role: "respondent".to_string(),
        input_digest: Digest("abc".to_string()),
        turn: 2,
        attempt: 1,
    }
}

#[test]
fn every_payload_kind_reads_back_as_written() {
    let events = vec![
        Event::new_public(EventPayload::PublicRecord("claim".into()), 1),
        Event::new_public(EventPayload::RawTranscript("raw".into()), 2),
        Event::new_public(EventPayload::Synthesis("synth".into()), 3),
        Event::new_sealed(
            EventPayload::SealedEvaluation { evaluator: "condition:x".into(), reasoning: "why".into() },
            4,
        ),
    ];
    for e in events {
        let row = event_row(&e);
        assert_eq!(event_from_row(&row, e.coordinate.clone()), Ok(e));
    }
}

#[test]
fn an_event_row_keeps_its_coordinate_key() {
    let c = coordinate();
    let mut e = Event::new_public(EventPayload::PublicRecord("claim".into()), 7);
    e.coordinate = Some(c.clone());
    let row = event_row(&e);
    assert_eq!(row.visibility, "public");
    assert_eq!(row.payload_type, "public_record");
    assert_eq!(row.payload_content.as_deref(), Some("claim"));
    assert_eq!(row.idempotency_key, Some(c.idempotency_key()));
    assert_eq!(event_from_row(&row, Some(c)), Ok(e));
}

#[test]
fn a_corrupt_row_is_rejected() {
    let e = Event::new_sealed(
        EventPayload::SealedEvaluation { evaluator: "e".into(), reasoning: "r".into() },
        1,
    );
    let mut row = event_row(&e);
    assert_eq!(row.visibility, "sealed");
    row.visibility = "hidden".to_string();
    assert_eq!(
        event_from_row(&row, None),
        Err("unknown event visibility hidden".to_string())
    );
    let mut row = event_row(&e);
    row.reasoning = None;
    assert_eq!(
        event_from_row(&row, None),
        Err("malformed event payload sealed_evaluation".to_string())
    );
    assert_eq!(e.visibility, EventVisibility::Sealed);
}
