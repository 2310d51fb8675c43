use wutag::color::Color;
use wutag::glob::Glob;
use wutag::ipc::{frame_length, frame_payload, socket_file_name, PayloadResult, Request, Response};
use wutag::registry::EntryData;
use wutag::tag::Tag;

fn tag(name: &str, color: Color) -> Tag {
    Tag::new(name.to_string(), color)
}

fn glob() -> Glob {
    Glob::new("*.png".to_string(), "/tmp".to_string(), Some(3))
}

fn strings(v: &[&str]) -> Vec<String> {
    v.iter().map(|s| s.to_string()).collect()
}

fn tags() -> Vec<Tag> {
    vec![
        tag("holiday", Color::Red),
        tag("2020", Color::TrueColor { r: 1, g: 2, b: 3 }),
    ]
}

fn entries(v: &[&str]) -> Vec<EntryData> {
    v.iter().map(|p| EntryData::new(p.to_string())).collect()
}

fn request_round_trip(req: Request) -> Request {
    let payload = req.to_payload();
    let back = Request::from_payload(&payload).expect("a request must decode from its own bytes");
    assert_eq!(back.to_payload(), payload);
    back
}

fn response_round_trip(resp: Response) -> Response {
    let payload = resp.to_payload();
    let back = Response::from_payload(&payload).expect("a response must decode from its own bytes");
    assert_eq!(back.to_payload(), payload);
    back
}

#[test]
fn every_request_variant_round_trips() {
    let reqs = vec![
        Request::TagFiles { files: strings(&["/a", "/b"]), tags: tags() },
        Request::TagFilesPattern { glob: glob(), tags: tags() },
        Request::UntagFiles { files: strings(&[]), tags: vec![] },
        Request::UntagFilesPattern { glob: glob(), tags: vec![] },
        Request::EditTag { tag: "holiday".to_string(), color: Color::BrightCyan },
        Request::ClearFiles { files: strings(&["/a"]) },
        Request::ClearFilesPattern { glob: glob() },
        Request::ClearTags { tags: strings(&["a", ""]) },
        Request::CopyTags { source: "/src".to_string(), target: strings(&["/b", "/c"]) },
        Request::CopyTagsPattern { source: String::new(), glob: glob() },
        Request::ListTags { with_files: true },
        Request::ListFiles { with_tags: false },
        Request::InspectFiles { files: strings(&["/a"]) },
        Request::InspectFilesPattern { glob: glob() },
        Request::Search { tags: strings(&["x"]), any: true },
        Request::Ping,
        Request::ClearCache,
    ];
    for req in reqs {
        request_round_trip(req);
    }
}

#[test]
fn request_fields_survive_the_round_trip() {
    let back = request_round_trip(Request::TagFiles {
        files: strings(&["/pics/photo \u{17e}luta.png", ""]),
        tags: tags(),
    });
    match back {
        Request::TagFiles { files, tags } => {
            assert_eq!(files, strings(&["/pics/photo \u{17e}luta.png", ""]));
            assert_eq!(tags.len(), 2);
            assert_eq!(tags[0].name(), "holiday");
            assert_eq!(tags[0].color(), &Color::Red);
            assert_eq!(tags[1].name(), "2020");
            assert_eq!(tags[1].color(), &Color::TrueColor { r: 1, g: 2, b: 3 });
        }
        other => panic!("wrong variant decoded: {:?}", other),
    }
}

#[test]
fn every_response_variant_round_trips() {
    let errs = || PayloadResult::<(), Vec<String>>::Error(strings(&["a failed", ""]));
    let resps = vec![
        Response::TagFiles(PayloadResult::Value(())),
        Response::TagFiles(errs()),
        Response::UntagFiles(errs()),
        Response::EditTag(PayloadResult::Error("no such tag".to_string())),
        Response::CopyTags(PayloadResult::Value(())),
        Response::ClearFiles(errs()),
        Response::ClearTags(PayloadResult::Value(())),
        Response::ListTags(PayloadResult::Value(vec![
            (tag("a", Color::Red), entries(&["/x"])),
            (tag("b", Color::Blue), entries(&[])),
        ])),
        Response::ListFiles(PayloadResult::Value(vec![
            (EntryData::new("/x".to_string()), tags()),
        ])),
        Response::InspectFiles(PayloadResult::Value(vec![])),
        Response::Search(PayloadResult::Value(entries(&["/a", "/b"]))),
        Response::Search(PayloadResult::Error("no tags to search for".to_string())),
        Response::Ping(PayloadResult::Value(())),
        Response::ClearCache(PayloadResult::Value(())),
    ];
    for resp in resps {
        response_round_trip(resp);
    }
}

#[test]
fn response_payload_survives_the_round_trip() {
    let back = response_round_trip(Response::Search(PayloadResult::Value(entries(&["/a"]))));
    match back {
        Response::Search(PayloadResult::Value(found)) => {
            assert_eq!(found.len(), 1);
            assert_eq!(found[0].path(), "/a");
        }
        other => panic!("wrong variant decoded: {:?}", other),
    }
}

#[test]
fn garbage_does_not_decode() {
    assert!(Request::from_payload(&vec![255, 0, 1]).is_none());
    assert!(Response::from_payload(&vec![]).is_none());
    // a valid request with trailing bytes is rejected whole
    let mut payload = Request::Ping.to_payload();
    payload.push(0);
    assert!(Request::from_payload(&payload).is_none());
}

#[test]
fn frames_carry_a_big_endian_length() {
    let payload: Vec<u8> = vec![9, 8, 7];
    let framed = frame_payload(&payload);
    assert_eq!(framed, vec![0, 0, 0, 0, 0, 0, 0, 3, 9, 8, 7]);
    assert_eq!(frame_length(&framed), Some(3));
    assert_eq!(frame_length(&vec![1, 2]), None);
}

#[test]
fn payload_result_converts_to_result() {
    let ok: PayloadResult<u64, String> = PayloadResult::Value(7);
    assert_eq!(ok.to_result(), Ok(7));
    let err: PayloadResult<u64, String> = PayloadResult::Error("e".to_string());
    assert_eq!(err.to_result(), Err("e".to_string()));
}

#[test]
fn socket_names_are_per_user() {
    assert_eq!(socket_file_name("alice"), "wutag-alice.sock");
    assert_eq!(socket_file_name(""), "wutag-.sock");
}

#[test]
fn integers_travel_as_eight_big_endian_bytes() {
    let mut b: Vec<u8> = Vec::new();
    wutag::wire::encode_u64(&mut b, 0x0102030405060708);
    assert_eq!(b, vec![1, 2, 3, 4, 5, 6, 7, 8]);
    assert_eq!(wutag::wire::decode_u64(&b, 0), Some((0x0102030405060708, 8)));
    assert_eq!(wutag::wire::decode_u64(&b, 1), None);
}
