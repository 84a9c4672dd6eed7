//! The short-code transform and the byte-key layout.

use band::bytekey::{u64_from_be8, u64_to_be8};
use band::state::State;
use band::store::Store;
use band::types::ApiError;

fn fresh_state() -> State {
    State::new(Store::open_temporary().expect("temporary store should open"))
}

#[test]
fn short_code_round_trips_for_valid_ids() {
    let st = fresh_state();
    // The engine draws identifiers from ID_SPACE; every identifier in it
    // round-trips through its code, including the space's last one.
    for id in [0u64, 1, 42, 7_000_000_000, band::idcodec::ID_SPACE - 1] {
        let code = st.fmt_id(id);
        assert!(!code.is_empty());
        assert!(code.len() <= 12);
        assert_eq!(st.parse_id(&code).unwrap(), id);
    }
}

#[test]
fn codes_outside_the_engine_space_are_rejected() {
    // u64::MAX lies outside the engine's identifier space; its code is
    // longer than any engine identifier's and the parser rejects it, as
    // it rejects any over-long candidate, without calling the decoder.
    let st = fresh_state();
    let long_code = st.fmt_id(u64::MAX);
    assert!(long_code.len() > 12);
    assert_eq!(st.parse_id(&long_code).unwrap_err(), ApiError::NotFound);
}

#[test]
fn distinct_ids_get_distinct_codes() {
    let st = fresh_state();
    assert_ne!(st.fmt_id(1), st.fmt_id(2));
}

#[test]
fn garbage_codes_are_rejected_cleanly() {
    let st = fresh_state();
    // Short garbage reaches the decoder and comes back as a miss; input
    // longer than any engine identifier's code, or not ASCII, is turned
    // away before the decoder sees it. Either way: an error, no panic.
    for garbage in [
        "",
        " ",
        "!!!",
        "0",
        "zzzzzzzzzzzz",
        "AAAAAAAAAAAAA",
        "this is not a code",
        "\u{1F600}",
        "caf\u{E9}caf\u{E9}caf\u{E9}",
    ] {
        let r = st.parse_id(garbage);
        assert_eq!(r.unwrap_err(), ApiError::NotFound);
    }
}

#[test]
fn byte_keys_are_big_endian() {
    let v = u64_to_be8(0x0102030405060708);
    assert_eq!(v, vec![1u8, 2, 3, 4, 5, 6, 7, 8]);
    assert_eq!(u64_from_be8(&v), 0x0102030405060708);
    assert_eq!(u64_to_be8(0), vec![0u8; 8]);
    assert_eq!(u64_to_be8(u64::MAX), vec![0xffu8; 8]);
}

#[test]
fn byte_keys_sort_like_their_ids() {
    // Ascending identifiers give ascending byte keys, so an ordered scan
    // of the message tree yields ascending identifier order.
    let ids = [0u64, 1, 255, 256, 65_535, 1 << 32, u64::MAX];
    for w in ids.windows(2) {
        assert!(u64_to_be8(w[0]) < u64_to_be8(w[1]));
    }
}

#[test]
fn room_or_404_distinguishes_bad_code_from_missing_room() {
    let mut st = fresh_state();
    let room = st.create_room().unwrap();
    let code = st.fmt_id(room);
    assert_eq!(st.room_or_404(&code).unwrap(), room);

    // A well-formed code of a room that does not exist.
    let mut other = 7u64;
    while other == room {
        other += 1;
    }
    let missing_code = st.fmt_id(other);
    assert_eq!(st.room_or_404(&missing_code).unwrap_err(), ApiError::RoomNotFound);

    // A string that is no identifier's code.
    assert_eq!(st.room_or_404("???").unwrap_err(), ApiError::NotFound);
}
