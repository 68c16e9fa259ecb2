use ringi::event::{Event, EventPayload, RespondentContextProjection};

#[test]
fn test_respondent_context_projection_excludes_sealed_and_raw() {
    let events = vec![
        Event::new_public(EventPayload::PublicRecord("Started".into()), 1),
        Event::new_public(
            EventPayload::RawTranscript("Some raw agent babble".into()),
            2,
        ),
        Event::new_sealed(
            EventPayload::SealedEvaluation {
                evaluator: "arbiter".into(),
                reasoning: "hidden thoughts".into(),
            },
            3,
        ),
        Event::new_public(EventPayload::Synthesis("Clean resolution".into()), 4),
    ];

    let projection = RespondentContextProjection::build(&events);
    let visible = projection.visible_events();

    // Only PublicRecord and Synthesis should be visible
    assert_eq!(visible.len(), 2);
    assert!(matches!(visible[0].payload, EventPayload::PublicRecord(_)));
    assert!(matches!(visible[1].payload, EventPayload::Synthesis(_)));
}
