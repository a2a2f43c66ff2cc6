use channel::new_unbounded_bidirectional;
use channel::BDUnbBuffer;
use channel::BDUnbRequester;
use channel::BDUnbResponder;

#[test]
fn test_new_unbounded_bidirectional() {
    let (mut buf, mut reqx, mut respx): (BDUnbBuffer<i32, i32>, BDUnbRequester, BDUnbResponder) =
        new_unbounded_bidirectional();
    let mut reqy = BDUnbRequester::new();
    reqx.send_request(&mut buf, 12);
    reqy.send_request(&mut buf, 15);
    assert!(reqx.try_get_response(&mut buf).is_none());
    {
        let xdata = respx.try_take_request(&mut buf).unwrap();
        respx.reply_response(&mut buf, xdata + 1);
        let xdata = respx.try_take_request(&mut buf).unwrap();
        respx.reply_response(&mut buf, xdata + 1);
    }
    assert_eq!(reqx.try_get_response(&mut buf).unwrap(), 13);
    assert_eq!(reqy.try_get_response(&mut buf).unwrap(), 16);
}

#[test]
fn bidirectional_requests_come_out_in_order() {
    let (mut buf, mut req, mut resp): (BDUnbBuffer<u32, u32>, BDUnbRequester, BDUnbResponder) =
        new_unbounded_bidirectional();
    req.send_requests(&mut buf, vec![5, 6, 7]);
    assert_eq!(resp.try_take_request(&mut buf), Some(5));
    assert_eq!(resp.try_take_request(&mut buf), Some(6));
    assert_eq!(resp.try_take_request(&mut buf), Some(7));
    assert_eq!(resp.try_take_request(&mut buf), None);
}

#[test]
fn bidirectional_responses_match_requests() {
    let (mut buf, mut req, mut resp): (BDUnbBuffer<u32, u32>, BDUnbRequester, BDUnbResponder) =
        new_unbounded_bidirectional();
    req.send_requests(&mut buf, vec![100, 200]);
    let a = resp.try_take_request(&mut buf).unwrap();
    let b = resp.try_take_request(&mut buf).unwrap();
    // Replies go back under the taken tokens, oldest first, so the
    // requester sees them in submission order even though the responder
    // replied to both before any poll.
    resp.reply_response(&mut buf, a * 2);
    resp.reply_response(&mut buf, b * 2);
    assert_eq!(req.try_get_response(&mut buf), Some(200));
    assert_eq!(req.try_get_response(&mut buf), Some(400));
    assert_eq!(req.try_get_response(&mut buf), None);
}

#[test]
fn bidirectional_poll_before_reply_is_none() {
    let (mut buf, mut req, mut resp): (BDUnbBuffer<u32, u32>, BDUnbRequester, BDUnbResponder) =
        new_unbounded_bidirectional();
    assert!(req.try_get_response(&mut buf).is_none());
    req.send_request(&mut buf, 1);
    assert!(req.try_get_response(&mut buf).is_none());
    let taken = resp.try_take_request(&mut buf).unwrap();
    assert_eq!(taken, 1);
    assert!(req.try_get_response(&mut buf).is_none());
    resp.reply_response(&mut buf, 9);
    assert_eq!(req.try_get_response(&mut buf), Some(9));
}
