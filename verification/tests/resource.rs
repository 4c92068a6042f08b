use whep_signaling::registry::Registry;
use whep_signaling::{ResourceId, SessionDescription, SignalError};

fn description(name: &str) -> SessionDescription {
    SessionDescription::parse(format!("v=0\r\no=- 0 0 IN IP4 127.0.0.1\r\ns={}\r\nt=0 0\r\n", name)).unwrap()
}

#[test]
fn to_text_writes_thirty_two_hex_digits() {
    assert_eq!(ResourceId { token: 0 }.to_text(), "00000000000000000000000000000000");
    assert_eq!(ResourceId { token: 1 }.to_text(), "00000000000000000000000000000001");
    assert_eq!(ResourceId { token: 0xdead_beef }.to_text(), "000000000000000000000000deadbeef");
    assert_eq!(ResourceId { token: u128::MAX }.to_text(), "ffffffffffffffffffffffffffffffff");
    assert_eq!(
        ResourceId { token: 0x0123_4567_89ab_cdef_fedc_ba98_7654_3210 }.to_text(),
        "0123456789abcdeffedcba9876543210"
    );
    assert_eq!(ResourceId { token: 1 << 127 }.to_text(), "80000000000000000000000000000000");
}

#[test]
fn to_text_is_safe_in_a_url_path() {
    for token in [0u128, 7, 255, 1 << 64, u128::MAX, 0x0123_4567_89ab_cdef_fedc_ba98_7654_3210] {
        let text = ResourceId { token }.to_text();
        assert_eq!(text.len(), 32);
        assert!(text.chars().all(|c| c.is_ascii_digit() || ('a'..='f').contains(&c)));
    }
}

#[test]
fn from_text_reads_what_to_text_wrote() {
    for token in [0u128, 1, 15, 16, 0xdead_beef, 1 << 127, u128::MAX - 1, u128::MAX] {
        let id = ResourceId { token };
        assert_eq!(ResourceId::from_text(&id.to_text()), Some(id));
    }
    assert_eq!(
        ResourceId::from_text("0123456789abcdeffedcba9876543210"),
        Some(ResourceId { token: 0x0123_4567_89ab_cdef_fedc_ba98_7654_3210 })
    );
}

#[test]
fn from_text_refuses_any_other_text() {
    assert_eq!(ResourceId::from_text(""), None);
    assert_eq!(ResourceId::from_text("1"), None);
    assert_eq!(ResourceId::from_text("0000000000000000000000000000000"), None);
    assert_eq!(ResourceId::from_text("000000000000000000000000000000000"), None);
    assert_eq!(ResourceId::from_text("0000000000000000000000000000000g"), None);
    assert_eq!(ResourceId::from_text("0000000000000000000000000000000A"), None);
    assert_eq!(ResourceId::from_text("000000000000000000000000DEADBEEF"), None);
    assert_eq!(ResourceId::from_text("0000000000000000 00000000000000f"), None);
    assert_eq!(ResourceId::from_text("+0000000000000000000000000000001"), None);
    assert_eq!(ResourceId::from_text("0x000000000000000000000000000001"), None);
    assert_eq!(ResourceId::from_text("\u{e9}0000000000000000000000000000000"), None);
    assert_eq!(ResourceId::from_text("\u{ff10}0000000000000000000000000000000"), None);
    assert_eq!(ResourceId::from_text("../../../../../../../etc/passwd0"), None);
}

#[test]
fn allocate_takes_a_free_seed_as_it_is() {
    let mut registry = Registry::new();
    assert_eq!(registry.len(), 0);
    assert_eq!(registry.allocate(41), ResourceId { token: 41 });
    assert_eq!(registry.allocate(7), ResourceId { token: 7 });
    assert_eq!(registry.len(), 2);
    assert!(registry.is_live(ResourceId { token: 41 }));
    assert!(registry.is_live(ResourceId { token: 7 }));
    assert!(!registry.is_live(ResourceId { token: 8 }));
}

#[test]
fn allocate_steps_past_live_identifiers() {
    let mut registry = Registry::new();
    assert_eq!(registry.allocate(5).token, 5);
    assert_eq!(registry.allocate(5).token, 6);
    assert_eq!(registry.allocate(5).token, 7);
    assert_eq!(registry.allocate(6).token, 8);
    assert_eq!(registry.allocate(4).token, 4);
    assert_eq!(registry.allocate(4).token, 9);
    assert_eq!(registry.len(), 6);
}

#[test]
fn allocate_goes_round_from_the_highest_token() {
    let mut registry = Registry::new();
    assert_eq!(registry.allocate(u128::MAX).token, u128::MAX);
    assert_eq!(registry.allocate(u128::MAX).token, 0);
    assert_eq!(registry.allocate(u128::MAX).token, 1);
    assert_eq!(registry.allocate(u128::MAX - 1).token, u128::MAX - 1);
    assert_eq!(registry.allocate(u128::MAX - 1).token, 2);
}

#[test]
fn allocate_never_hands_out_a_live_identifier() {
    let mut registry = Registry::new();
    let mut seen = Vec::new();
    for round in 0..200u128 {
        let id = registry.allocate(round % 3);
        assert!(!seen.contains(&id));
        seen.push(id);
    }
    assert_eq!(registry.len(), 200);
}

#[test]
fn release_frees_the_identifier() {
    let mut registry = Registry::new();
    let id = registry.allocate(9);
    assert!(registry.release(id));
    assert!(!registry.is_live(id));
    assert!(!registry.release(id));
    assert_eq!(registry.len(), 0);
    assert_eq!(registry.allocate(9), id);
}

#[test]
fn file_takes_one_answer_for_a_live_session() {
    let mut registry = Registry::new();
    let id = registry.allocate(3);
    assert_eq!(registry.answer(id), None);
    assert_eq!(registry.file(ResourceId { token: 4 }, description("a")), Err(SignalError::NotFound));
    assert_eq!(registry.file(id, description("first")), Ok(()));
    assert_eq!(registry.answer(id), Some(description("first")));
    assert_eq!(registry.file(id, description("second")), Err(SignalError::Conflict));
    assert_eq!(registry.answer(id), Some(description("first")));
    assert_eq!(registry.len(), 1);
}

#[test]
fn release_drops_the_answer() {
    let mut registry = Registry::new();
    let id = registry.allocate(3);
    assert_eq!(registry.file(id, description("a")), Ok(()));
    assert!(registry.release(id));
    assert_eq!(registry.answer(id), None);
    assert_eq!(registry.file(id, description("b")), Err(SignalError::NotFound));
    assert_eq!(registry.allocate(3), id);
    assert_eq!(registry.answer(id), None);
    assert_eq!(registry.file(id, description("c")), Ok(()));
    assert_eq!(registry.answer(id), Some(description("c")));
}
