use brc20_index::bytes::concat_parts;
use brc20_index::extract::extract_inscription_payload;

fn by(s: &str) -> Vec<u8> {
    s.as_bytes().to_vec()
}

#[test]
fn payload_found_after_text_plain_marker() {
    let mut w = by("\x01\x02text/plain;charset=utf-8\x00{\"p\":\"brc-20\",\"op\":\"mint\"}");
    w.push(0xff);
    let got = extract_inscription_payload(&w);
    assert_eq!(got, Some(by("{\"p\":\"brc-20\",\"op\":\"mint\"}")));
}

#[test]
fn payload_found_after_application_json_marker() {
    let w = by("..application/json..{\"p\":\"brc-20\"}..");
    assert_eq!(extract_inscription_payload(&w), Some(by("{\"p\":\"brc-20\"}")));
}

#[test]
fn text_plain_takes_precedence_over_application_json() {
    // the text/plain marker is preferred even when it appears later
    let w = by("application/json{\"a\":1}text/plain{\"b\":2}");
    // window starts after "text/plain"; the first `{` after it opens the
    // payload, the last `}` of the buffer closes it
    assert_eq!(extract_inscription_payload(&w), Some(by("{\"b\":2}")));
}

#[test]
fn no_marker_yields_none() {
    let w = by("{\"p\":\"brc-20\",\"op\":\"mint\"}");
    assert_eq!(extract_inscription_payload(&w), None);
}

#[test]
fn missing_braces_yield_none() {
    assert_eq!(extract_inscription_payload(&by("text/plain and nothing else")), None);
    assert_eq!(extract_inscription_payload(&by("text/plain {no close")), None);
    assert_eq!(extract_inscription_payload(&by("text/plain }close before open{")), None);
}

#[test]
fn payload_uses_last_closing_brace() {
    let w = by("text/plain{\"a\":{\"b\":1}}tail");
    assert_eq!(extract_inscription_payload(&w), Some(by("{\"a\":{\"b\":1}}")));
}

#[test]
fn witness_elements_concatenate_in_order() {
    let parts = vec![by("text/pl"), by("ain;x{\"p\":\"brc"), by("-20\"}")];
    let buf = concat_parts(&parts);
    assert_eq!(buf, by("text/plain;x{\"p\":\"brc-20\"}"));
    assert_eq!(extract_inscription_payload(&buf), Some(by("{\"p\":\"brc-20\"}")));
}
