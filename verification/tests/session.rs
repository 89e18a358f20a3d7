use opcua_session::basic_types::{DateTime, NodeId, StatusCode};
use opcua_session::message::{RequestHeader, ResponseHeader, SupportedMessage};
use opcua_session::session_state::SessionState;

fn response_with_handle(h: u32) -> SupportedMessage {
    SupportedMessage::Response(ResponseHeader {
        timestamp: DateTime::epoch(),
        request_handle: h,
        service_result: StatusCode::Good,
    })
}

fn request_from_header(header: RequestHeader) -> SupportedMessage {
    SupportedMessage::Request(header)
}

#[test]
fn session_defaults() {
    let s = SessionState::new();
    assert_eq!(s.session_timeout, 60 * 1000);
    assert_eq!(s.request_timeout, 10 * 1000);
    assert_eq!(s.send_buffer_size, 65536);
    assert_eq!(s.receive_buffer_size, 65536);
    assert_eq!(s.max_message_size, 65536);
    assert!(s.session_id().is_null());
    assert!(s.authentication_token.is_null());
    assert!(!s.wait_for_publish_response);
}

#[test]
fn session_id_is_recorded() {
    let mut s = SessionState::new();
    let id = NodeId::new(2, 1234);
    s.set_session_id(id);
    assert_eq!(s.session_id(), id);
}

#[test]
fn request_header_is_stamped() {
    let mut s = SessionState::new();
    let token = NodeId::new(1, 99);
    s.authentication_token = token;
    let header = s.make_request_header();
    // the generator starts at 1 and advances before issuing
    assert_eq!(header.request_handle, 2);
    assert_eq!(header.authentication_token, token);
    assert_eq!(header.return_diagnostics, 0);
    assert_eq!(header.timeout_hint, s.request_timeout);
    assert!(header.audit_entry_id.is_null());
    let header2 = s.make_request_header();
    assert_eq!(header2.request_handle, 3);
}

#[test]
fn monitored_item_handles_are_separate() {
    let mut s = SessionState::new();
    assert_eq!(s.next_monitored_item_handle(), 1001);
    assert_eq!(s.next_monitored_item_handle(), 1002);
    let header = s.make_request_header();
    assert_eq!(header.request_handle, 2);
}

#[test]
fn requests_dequeue_in_enqueue_order() {
    let mut s = SessionState::new();
    let r1 = response_with_handle(1);
    let r2 = response_with_handle(2);
    let r3 = response_with_handle(3);
    s.add_request(r1, false);
    s.add_request(r2, true);
    s.add_request(r3, false);
    let (m1, a1) = s.next_request().unwrap();
    let (m2, a2) = s.next_request().unwrap();
    let (m3, a3) = s.next_request().unwrap();
    assert_eq!(m1.request_handle(), 1);
    assert!(!a1);
    assert_eq!(m2.request_handle(), 2);
    assert!(a2);
    assert_eq!(m3.request_handle(), 3);
    assert!(!a3);
    assert!(s.next_request().is_none());
}

#[test]
fn resolving_twice_is_idempotent() {
    let mut s = SessionState::new();
    s.add_pending_request(7, false);
    s.remove_pending_request_timeout(7, false);
    // resolving the entry again is a harmless no-op
    s.remove_pending_request_timeout(7, false);
    // resolving an entry never recorded is a no-op too
    s.remove_pending_request_timeout(1000, true);
}

#[test]
fn full_request_round_trip_claims_once() {
    let mut s = SessionState::new();
    let header = s.make_request_header();
    let handle = header.request_handle;
    s.add_request(request_from_header(header), false);
    let (sent, is_async) = s.next_request().unwrap();
    assert_eq!(sent.request_handle(), handle);
    s.add_pending_request(sent.request_handle(), is_async);
    s.add_response(response_with_handle(handle), is_async);
    s.remove_pending_request_timeout(handle, is_async);
    let claimed = s.remove_response(handle, is_async);
    assert!(claimed.is_some());
    assert_eq!(claimed.unwrap().request_handle(), handle);
    // a second claim finds nothing
    assert!(s.remove_response(handle, is_async).is_none());
}

#[test]
fn async_drain_orders_by_handle() {
    let mut s = SessionState::new();
    s.add_response(response_with_handle(5), true);
    s.add_response(response_with_handle(2), true);
    s.add_response(response_with_handle(9), true);
    s.add_response(response_with_handle(1), true);
    // a synchronous response among them is excluded from the drain
    s.add_response(response_with_handle(7), false);
    let drained = s.async_responses();
    let handles: Vec<u32> = drained.iter().map(|m| m.request_handle()).collect();
    assert_eq!(handles, vec![1, 2, 5, 9]);
    // the synchronous one is still there
    assert!(s.remove_response(7, false).is_some());
    // a second drain finds nothing
    assert!(s.async_responses().is_empty());
}

#[test]
fn acknowledgements_batch_in_order() {
    let mut s = SessionState::new();
    s.record_ack(1, 10);
    s.record_ack(1, 11);
    s.record_ack(2, 1);
    let acks = s.subscription_acknowledgements();
    assert_eq!(acks.len(), 3);
    assert_eq!((acks[0].subscription_id, acks[0].sequence_number), (1, 10));
    assert_eq!((acks[1].subscription_id, acks[1].sequence_number), (1, 11));
    assert_eq!((acks[2].subscription_id, acks[2].sequence_number), (2, 1));
    // the drain emptied the accumulator
    assert!(s.subscription_acknowledgements().is_empty());
}

#[test]
fn duplicate_acknowledgements_are_kept() {
    let mut s = SessionState::new();
    s.record_ack(3, 8);
    s.record_ack(3, 8);
    let acks = s.subscription_acknowledgements();
    assert_eq!(acks.len(), 2);
}

#[test]
fn stray_response_is_stored_and_claimable() {
    let mut s = SessionState::new();
    // no in-flight entry for 42 exists; depositing must not fault
    s.add_response(response_with_handle(42), false);
    let claimed = s.remove_response(42, false);
    assert!(claimed.is_some());
    assert_eq!(claimed.unwrap().request_handle(), 42);
}

#[test]
fn duplicate_deposit_last_write_wins() {
    let mut s = SessionState::new();
    s.add_response(response_with_handle(6), true);
    s.add_response(response_with_handle(6), false);
    // the second deposit replaced the first, flag included
    assert!(s.async_responses().is_empty());
    assert!(s.remove_response(6, false).is_some());
}

#[test]
fn discard_all_releases_everything_held() {
    let mut s = SessionState::new();
    s.add_response(response_with_handle(3), true);
    s.add_response(response_with_handle(4), false);
    s.discard_all();
    assert!(s.remove_response(3, true).is_none());
    assert!(s.remove_response(4, false).is_none());
    assert!(s.async_responses().is_empty());
}

#[test]
fn empty_session_reports_absence() {
    let mut s = SessionState::new();
    assert!(s.next_request().is_none());
    assert!(s.remove_response(1, false).is_none());
    assert!(s.async_responses().is_empty());
    assert!(s.subscription_acknowledgements().is_empty());
}
