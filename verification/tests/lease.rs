use pacta_memory::MemoryRegistry;
use ringi::lease::{LeaseRegistry, PactSpec};

fn pact(docket: &str) -> PactSpec {
    PactSpec {
        id: uuid::Uuid::new_v4().as_u128(),
        docket: docket.to_string(),
        kind: "step".to_string(),
        clause: Vec::new(),
    }
}

#[test]
fn a_claim_leases_the_first_claimable_pact_of_its_docket() {
    let mut r = <MemoryRegistry as LeaseRegistry>::seeded(vec![pact("a"), pact("b")], 1000);
    let first = r.claim("a", 0).expect("an available pact is claimable");
    assert!(r.claim("a", 500).is_none(), "a held lease blocks a second claim");
    assert!(r.claim("c", 0).is_none(), "no pact on that docket");
    assert!(r.claim("a", 1001).is_some(), "a lapsed lease is reclaimed");
    assert!(!LeaseRegistry::fulfill(&mut r, first), "the lapsed holder was rotated away");
}

#[test]
fn fulfilling_settles_and_releasing_defers() {
    let mut r = <MemoryRegistry as LeaseRegistry>::seeded(vec![pact("a"), pact("b")], 1000);
    let a = r.claim("a", 0).unwrap();
    assert!(LeaseRegistry::fulfill(&mut r, a));
    assert!(r.claim("a", 5000).is_none(), "a settled pact is never claimable again");
    let b = r.claim("b", 0).unwrap();
    assert!(LeaseRegistry::release(&mut r, b, 700));
    assert!(r.claim("b", 699).is_none(), "withheld until its reclaimable instant");
    assert!(r.claim("b", 700).is_some());
    assert!(!LeaseRegistry::release(&mut r, b, 0), "the released holder holds nothing");
}
