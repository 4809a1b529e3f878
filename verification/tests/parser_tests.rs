use yawada::parse::{parse, Directive, MalformedKind};

fn blocks(ds: &[Directive]) -> Vec<Vec<u8>> {
    let mut r = Vec::new();
    for d in ds {
        if let Directive::Block(h) = d {
            r.push(h.clone());
        }
    }
    r
}

#[test]
fn empty_input_is_one_blank_line() {
    let ds = parse(b"");
    assert_eq!(ds.len(), 1);
    assert!(matches!(ds[0], Directive::Blank));
}

#[test]
fn blank_and_comment_lines() {
    let ds = parse(b"   \n# a comment\n\t\n");
    assert_eq!(ds.len(), 4);
    assert!(matches!(ds[0], Directive::Blank));
    assert!(matches!(ds[1], Directive::Comment));
    assert!(matches!(ds[2], Directive::Blank));
    assert!(matches!(ds[3], Directive::Blank));
}

#[test]
fn simple_block_line() {
    let ds = parse(b"0.0.0.0 ads.example.com");
    assert_eq!(ds.len(), 1);
    assert_eq!(ds[0], Directive::Block(b"ads.example.com".to_vec()));
}

#[test]
fn aliases_share_the_line() {
    let ds = parse(b"0.0.0.0 a.example.com b.example.com c.example.com");
    assert_eq!(
        blocks(&ds),
        vec![
            b"a.example.com".to_vec(),
            b"b.example.com".to_vec(),
            b"c.example.com".to_vec(),
        ]
    );
    assert_eq!(ds.len(), 3);
}

#[test]
fn inline_comment_is_tolerated() {
    let ds = parse(b"0.0.0.0 ads.example.com # tracking network");
    assert_eq!(ds.len(), 1);
    assert_eq!(ds[0], Directive::Block(b"ads.example.com".to_vec()));
}

#[test]
fn hostnames_are_normalized() {
    let ds = parse(b"0.0.0.0 ADS.Example.COM.");
    assert_eq!(ds[0], Directive::Block(b"ads.example.com".to_vec()));
}

#[test]
fn crlf_line_endings() {
    let ds = parse(b"0.0.0.0 a.example.com\r\n0.0.0.0 b.example.com\r\n");
    assert_eq!(
        blocks(&ds),
        vec![b"a.example.com".to_vec(), b"b.example.com".to_vec()]
    );
}

#[test]
fn address_without_hostname_is_malformed() {
    let ds = parse(b"0.0.0.0");
    assert_eq!(ds.len(), 1);
    assert_eq!(
        ds[0],
        Directive::Malformed(b"0.0.0.0".to_vec(), MalformedKind::MissingHostname)
    );
}

#[test]
fn invalid_hostname_is_malformed_not_dropped() {
    let ds = parse(b"0.0.0.0 bad_host.example.com good.example.com");
    assert_eq!(ds.len(), 2);
    assert_eq!(
        ds[0],
        Directive::Malformed(
            b"0.0.0.0 bad_host.example.com good.example.com".to_vec(),
            MalformedKind::InvalidHostname
        )
    );
    assert_eq!(ds[1], Directive::Block(b"good.example.com".to_vec()));
}

#[test]
fn empty_label_is_invalid() {
    let ds = parse(b"0.0.0.0 a..example.com");
    assert!(matches!(ds[0], Directive::Malformed(_, MalformedKind::InvalidHostname)));
}

#[test]
fn label_longer_than_63_is_invalid() {
    let mut line = b"0.0.0.0 ".to_vec();
    line.extend(std::iter::repeat(b'a').take(64));
    line.extend(b".example.com");
    let ds = parse(&line);
    assert!(matches!(ds[0], Directive::Malformed(_, MalformedKind::InvalidHostname)));
    // 63 is still fine
    let mut ok = b"0.0.0.0 ".to_vec();
    ok.extend(std::iter::repeat(b'a').take(63));
    ok.extend(b".example.com");
    let ds = parse(&ok);
    assert!(matches!(ds[0], Directive::Block(_)));
}

#[test]
fn hostname_longer_than_253_is_invalid() {
    let mut name: Vec<u8> = Vec::new();
    while name.len() < 252 {
        name.extend(b"abcdefg.");
    }
    name.extend(b"ab");
    assert!(name.len() > 253);
    let mut line = b"0.0.0.0 ".to_vec();
    line.extend(&name);
    let ds = parse(&line);
    assert!(matches!(ds[0], Directive::Malformed(_, MalformedKind::InvalidHostname)));
}

#[test]
fn parsing_is_total_over_arbitrary_bytes() {
    // every byte value, in one blob with embedded newlines
    let mut blob: Vec<u8> = Vec::new();
    for b in 0..=255u8 {
        blob.push(b);
        if b % 7 == 0 {
            blob.push(b'\n');
        }
    }
    let ds = parse(&blob);
    // one line per newline plus the final piece, one directive minimum each
    let line_count = 1 + blob.iter().filter(|&&b| b == b'\n').count();
    assert!(ds.len() >= line_count);
}

#[test]
fn directive_count_matches_line_count_without_aliases() {
    let text = b"# header\n0.0.0.0 one.example.com\n\n0.0.0.0 two.example.com";
    let ds = parse(text);
    assert_eq!(ds.len(), 4);
}
