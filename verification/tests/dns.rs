use kirblasnoop::dns::{parse, reply, reply_tcp, Answer, CLASS_IN, TYPE_A, TYPE_AAAA};

fn query(name: &str, qtype: u16) -> Vec<u8> {
    let mut q = vec![0x12, 0x34, 0x01, 0x00, 0, 1, 0, 0, 0, 0, 0, 0];
    for label in name.split('.') {
        q.push(label.len() as u8);
        q.extend_from_slice(label.as_bytes());
    }
    q.push(0);
    q.extend_from_slice(&qtype.to_be_bytes());
    q.extend_from_slice(&CLASS_IN.to_be_bytes());
    q
}

fn answer() -> Answer {
    Answer {
        a: Some([192, 0, 2, 1]),
        aaaa: None,
        ttl: 60,
    }
}

#[test]
fn parses_a_query() {
    let msg = query("api.example.com", TYPE_A);
    let q = parse(&msg).unwrap();
    assert_eq!(q.qtype, TYPE_A);
    assert_eq!(q.id, 0x1234);
    // question range must cover qname + qtype + qclass exactly
    assert_eq!(q.question, 12..msg.len());
}

#[test]
fn reply_echoes_id_and_question_and_carries_the_address() {
    let msg = query("api.example.com", TYPE_A);
    let r = reply(&msg, &answer()).unwrap();
    assert_eq!(&r[0..2], &msg[0..2], "transaction id must be echoed");
    assert_eq!(r[2] & 0x80, 0x80, "QR must be set");
    assert_eq!(u16::from_be_bytes([r[4], r[5]]), 1, "qdcount");
    assert_eq!(u16::from_be_bytes([r[6], r[7]]), 1, "ancount");
    assert_eq!(&r[12..msg.len()], &msg[12..], "question copied verbatim");
    // answer: pointer, type, class, ttl, rdlength, rdata
    let a = &r[msg.len()..];
    assert_eq!(&a[0..2], &[0xc0, 0x0c]);
    assert_eq!(u16::from_be_bytes([a[2], a[3]]), TYPE_A);
    assert_eq!(u32::from_be_bytes([a[6], a[7], a[8], a[9]]), 60);
    assert_eq!(u16::from_be_bytes([a[10], a[11]]), 4);
    assert_eq!(&a[12..16], &[192, 0, 2, 1]);
}

#[test]
fn unconfigured_type_gets_noerror_with_no_answers() {
    // AAAA asked for, only an A record configured
    let r = reply(&query("api.example.com", TYPE_AAAA), &answer()).unwrap();
    assert_eq!(u16::from_be_bytes([r[6], r[7]]), 0, "ancount must be 0");
    assert_eq!(r[3] & 0x0f, 0, "rcode must be NOERROR, not NXDOMAIN");
}

#[test]
fn aaaa_is_answered_when_configured() {
    let ans = Answer {
        a: None,
        aaaa: Some([0x20, 0x01, 0x0d, 0xb8, 0, 0, 0, 0, 0, 0, 0, 0, 0, 0, 0, 1]),
        ttl: 30,
    };
    let msg = query("v6.example.com", TYPE_AAAA);
    let r = reply(&msg, &ans).unwrap();
    assert_eq!(u16::from_be_bytes([r[6], r[7]]), 1);
    let a = &r[msg.len()..];
    assert_eq!(u16::from_be_bytes([a[10], a[11]]), 16, "rdlength for AAAA");
}

#[test]
fn never_answers_a_response() {
    let mut resp = query("api.example.com", TYPE_A);
    resp[2] |= 0x80; // set QR
    assert!(parse(&resp).is_none());
    assert!(reply(&resp, &answer()).is_none());
}

#[test]
fn tcp_framing_round_trips() {
    let inner = query("api.example.com", TYPE_A);
    let mut framed = (inner.len() as u16).to_be_bytes().to_vec();
    framed.extend_from_slice(&inner);
    let r = reply_tcp(&framed, &answer()).unwrap();
    let declared = u16::from_be_bytes([r[0], r[1]]) as usize;
    assert_eq!(declared, r.len() - 2, "length prefix must match the body");
    assert_eq!(&r[2..4], &inner[0..2], "id echoed inside the frame");
}

#[test]
fn garbage_is_not_answered() {
    assert!(reply(&[], &answer()).is_none());
    assert!(reply(&[0xde, 0xad], &answer()).is_none());
    let truncated = query("api.example.com", TYPE_A);
    for n in 0..truncated.len() {
        let _ = reply(&truncated[..n], &answer());
    }
}

#[test]
fn a_framed_reply_is_the_plain_reply_behind_its_length() {
    let inner = query("api.example.com", TYPE_A);
    let mut framed = (inner.len() as u16).to_be_bytes().to_vec();
    framed.extend_from_slice(&inner);
    let r = reply_tcp(&framed, &answer()).unwrap();
    assert_eq!(r[2..], reply(&inner, &answer()).unwrap()[..]);
    assert!(reply_tcp(&[0], &answer()).is_none());
    assert!(reply_tcp(&[0, 4, 1, 2, 3, 4], &answer()).is_none());
}

#[test]
fn a_reply_draws_no_reply() {
    let r = reply(&query("a.example", TYPE_A), &answer()).unwrap();
    assert!(reply(&r, &answer()).is_none());
}

#[test]
fn the_recursion_flag_is_echoed() {
    let mut msg = query("a.example", TYPE_A);
    assert_eq!(reply(&msg, &answer()).unwrap()[2], 0x81);
    msg[2] = 0;
    assert_eq!(reply(&msg, &answer()).unwrap()[2], 0x80);
    assert_eq!(reply(&msg, &answer()).unwrap()[3], 0x80);
}

#[test]
fn other_classes_get_no_record() {
    let mut msg = query("a.example", TYPE_A);
    let n = msg.len();
    msg[n - 1] = 3;
    let r = reply(&msg, &answer()).unwrap();
    assert_eq!(r.len(), n);
    assert_eq!(u16::from_be_bytes([r[6], r[7]]), 0);
}
