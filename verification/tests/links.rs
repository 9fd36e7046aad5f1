use p2p_download::ed2k::ED2KDownloader;
use p2p_download::gateway::build_candidate_urls;
use p2p_download::gateway::default_ed2k_gateways;
use p2p_download::gateway::render_gateway_url;
use p2p_download::link::Ed2kInfo;
use p2p_download::number::decimal_text;
use p2p_download::number::parse_number;
use p2p_download::number::to_signed;
use p2p_download::percent::percent_decode;
use p2p_download::text::chars_of;
use p2p_download::text::join;
use p2p_download::text::replace;
use p2p_download::text::split;

const HASH: &str = "0123456789ABCDEF0123456789ABCDEF";

fn info() -> Ed2kInfo {
    Ed2kInfo {
        name: "example.iso".to_string(),
        size: 123,
        hash: HASH.to_string(),
        sources: Vec::new(),
    }
}

fn refused(url: &str) -> String {
    ED2KDownloader::parse_ed2k_url(url).expect_err("link should be refused")
}

#[test]
fn parses_embedded_http_sources() {
    let parsed = ED2KDownloader::parse_ed2k_url(
        "ed2k://|file|example.iso|123|0123456789ABCDEF0123456789ABCDEF|s=https%3A%2F%2Fmirror.example%2Fexample.iso|/",
    )
    .expect("ed2k url should parse");

    assert_eq!(parsed.sources, vec!["https://mirror.example/example.iso"]);
}

#[test]
fn renders_gateway_templates_and_dedupes_sources() {
    let parsed = ED2KDownloader::parse_ed2k_url(
        "ed2k://|file|example.iso|123|0123456789ABCDEF0123456789ABCDEF|s=https://mirror.example/example.iso|/",
    )
    .expect("ed2k url should parse");

    let direct = render_gateway_url("https://gateway.example/hash/{hash}", &parsed);
    assert_eq!(
        direct,
        "https://gateway.example/hash/0123456789ABCDEF0123456789ABCDEF"
    );

    let candidates = build_candidate_urls(
        &parsed,
        &[
            "https://mirror.example/example.iso".to_string(),
            "https://gateway.example".to_string(),
        ],
    );
    assert_eq!(
        candidates,
        vec![
            "https://mirror.example/example.iso".to_string(),
            "https://gateway.example/hash/0123456789ABCDEF0123456789ABCDEF".to_string(),
        ]
    );
}

#[test]
fn reads_the_documented_format() {
    let url = format!("ed2k://|file|a%20b.iso|18446744073709551615|{}|/", HASH);
    let parsed = ED2KDownloader::parse_ed2k_url(&url).unwrap();
    assert_eq!(parsed.name, "a b.iso");
    assert_eq!(parsed.size, u64::MAX);
    assert_eq!(parsed.hash, HASH);
    assert!(parsed.sources.is_empty());
}

#[test]
fn keeps_names_outside_ascii() {
    let url = format!("ed2k://|file|größe%20文件.iso|5|{}|s=http://m/größe|/", HASH);
    let parsed = ED2KDownloader::parse_ed2k_url(&url).unwrap();
    assert_eq!(parsed.name, "größe 文件.iso");
    assert_eq!(parsed.sources, vec!["http://m/größe"]);
}

#[test]
fn reads_a_link_that_ends_after_the_hash() {
    let url = format!("ed2k://|file|x|0|{}", HASH);
    let parsed = ED2KDownloader::parse_ed2k_url(&url).unwrap();
    assert_eq!((parsed.name.as_str(), parsed.size), ("x", 0));
}

#[test]
fn what_stands_before_the_first_bar_is_ignored() {
    let url = format!("ed2k://anything|file|x|7|{}|/", HASH);
    assert_eq!(ED2KDownloader::parse_ed2k_url(&url).unwrap().size, 7);
}

#[test]
fn keeps_only_http_sources() {
    let url = format!(
        "ed2k://|file|x|1|{}|s=ftp://a/b|s=http://c/d|h=1|S=http://e|s=HTTP://f|s=https://g|/|s=http://h",
        HASH
    );
    let parsed = ED2KDownloader::parse_ed2k_url(&url).unwrap();
    assert_eq!(parsed.sources, vec!["http://c/d", "https://g", "http://h"]);
}

#[test]
fn refuses_other_schemes() {
    assert_eq!(refused("http://|file|x|1|y|/"), "Invalid ed2k:// URL");
    assert_eq!(refused(""), "Invalid ed2k:// URL");
    assert_eq!(refused("ED2K://|file|x|1|y|/"), "Invalid ed2k:// URL");
}

#[test]
fn refuses_too_few_parts() {
    assert_eq!(
        refused("ed2k://|file|x|1"),
        "Invalid ED2K URL format, insufficient parts: ed2k://|file|x|1"
    );
    assert_eq!(
        refused("ed2k://"),
        "Invalid ED2K URL format, insufficient parts: ed2k://"
    );
}

#[test]
fn refuses_other_types() {
    assert_eq!(
        refused("ed2k://|server|1.2.3.4|4661|/"),
        "Unsupported ED2K type: 'server' (only 'file' supported)"
    );
}

#[test]
fn refuses_bad_sizes_before_bad_hashes() {
    for size in ["", "x", "-1", "1.5", "18446744073709551616", " 1", "++1", "+"] {
        assert_eq!(
            refused(&format!("ed2k://|file|x|{}|short|/", size)),
            format!("Failed to parse ED2K file size: '{}'", size)
        );
    }
}

#[test]
fn counts_the_bytes_of_the_hash() {
    assert_eq!(
        refused("ed2k://|file|x|1|short|/"),
        "Invalid ED2K hash length: 5 (should be 32)"
    );
    assert_eq!(
        refused(&format!("ed2k://|file|x|1|{}0|/", HASH)),
        "Invalid ED2K hash length: 33 (should be 32)"
    );
    let umlauts = "ä".repeat(16);
    let url = format!("ed2k://|file|x|1|{}|/", umlauts);
    assert_eq!(ED2KDownloader::parse_ed2k_url(&url).unwrap().hash, umlauts);
}

#[test]
fn decodes_escapes() {
    assert_eq!(percent_decode(""), "");
    assert_eq!(percent_decode("plain+text"), "plain+text");
    assert_eq!(percent_decode("%41%62%2f%2F"), "Ab//");
    assert_eq!(percent_decode("%41"), "A");
    assert_eq!(percent_decode("%%41"), "%A");
    assert_eq!(percent_decode("%2541"), "%41");
}

#[test]
fn leaves_what_is_no_escape() {
    assert_eq!(percent_decode("%"), "%");
    assert_eq!(percent_decode("%4"), "%4");
    assert_eq!(percent_decode("100%"), "100%");
    assert_eq!(percent_decode("%G1%1G"), "%G1%1G");
    assert_eq!(percent_decode("%-1"), "%-1");
    assert_eq!(percent_decode("%+A%A+%++"), "%+A%A+%++");
    assert_eq!(percent_decode("%é"), "%é");
    assert_eq!(percent_decode("%4é"), "%4é");
}

#[test]
fn leaves_text_outside_escapes() {
    assert_eq!(percent_decode("é"), "é");
    assert_eq!(percent_decode("größe 100% 文件"), "größe 100% 文件");
    assert_eq!(percent_decode("é%20ü"), "é ü");
}

#[test]
fn each_escape_is_one_character() {
    assert_eq!(percent_decode("%C3%A9"), "\u{c3}\u{a9}");
    assert_eq!(percent_decode("%FF"), "\u{ff}");
}

#[test]
fn decoding_undoes_escaping_of_every_byte() {
    for byte in 0..=255u8 {
        let expected: String = (byte as char).to_string();
        assert_eq!(percent_decode(&format!("%{:02X}", byte)), expected);
        assert_eq!(percent_decode(&format!("%{:02x}", byte)), expected);
    }
}

#[test]
fn fills_in_all_placeholders() {
    assert_eq!(
        render_gateway_url("http://g/{size}/{name}?h={hash}&again={hash}", &info()),
        format!("http://g/123/example.iso?h={}&again={}", HASH, HASH)
    );
    assert_eq!(render_gateway_url("{name}", &info()), "example.iso");
    assert_eq!(render_gateway_url("x{size}y", &info()), "x123y");
    assert_eq!(render_gateway_url("{{hash}}", &info()), format!("{{{}}}", HASH));
}

#[test]
fn fills_in_hash_then_name_then_size() {
    let mut link = info();
    link.hash = "{name}".to_string();
    link.name = "{size}{hash}".to_string();
    assert_eq!(render_gateway_url("{hash}", &link), "123{hash}");
}

#[test]
fn spells_gateways_out() {
    let expected = format!("http://g/hash/{}", HASH);
    for template in ["http://g", "http://g/", "http://g///", "http://g/hash", "http://g/hash///"] {
        assert_eq!(render_gateway_url(template, &info()), expected);
    }
    assert_eq!(
        render_gateway_url("http://g/{hush}", &info()),
        format!("http://g/{{hush}}/hash/{}", HASH)
    );
    assert_eq!(render_gateway_url("/", &info()), format!("/hash/{}", HASH));
}

#[test]
fn ignores_white_space_around_templates() {
    for code in 0..=0x10FFFFu32 {
        if let Some(c) = char::from_u32(code) {
            if c.is_whitespace() {
                let template = format!("{}{}http://g{}", c, c, c);
                assert_eq!(
                    render_gateway_url(&template, &info()),
                    format!("http://g/hash/{}", HASH)
                );
                assert_eq!(render_gateway_url(&c.to_string(), &info()), "");
            }
        }
    }
    assert_eq!(
        render_gateway_url("\u{200b}", &info()),
        format!("\u{200b}/hash/{}", HASH)
    );
}

#[test]
fn an_empty_template_gives_nothing() {
    assert_eq!(render_gateway_url("", &info()), "");
    assert_eq!(render_gateway_url(" \t\n", &info()), "");
}

#[test]
fn falls_back_on_the_default_gateway() {
    assert_eq!(default_ed2k_gateways(), vec!["https://ed2k.lyoko.io/hash/{hash}"]);
    assert_eq!(
        build_candidate_urls(&info(), &[]),
        vec![format!("https://ed2k.lyoko.io/hash/{}", HASH)]
    );
}

#[test]
fn tries_sources_first_and_nothing_twice() {
    let mut link = info();
    link.sources = vec![
        "http://b".to_string(),
        "http://a".to_string(),
        "".to_string(),
        "http://b".to_string(),
    ];
    let gateways = [
        "http://g".to_string(),
        "  ".to_string(),
        "http://g/hash/".to_string(),
        "http://a{size}".to_string(),
        "http://g2".to_string(),
    ];
    assert_eq!(
        build_candidate_urls(&link, &gateways),
        vec![
            "http://b".to_string(),
            "http://a".to_string(),
            format!("http://g/hash/{}", HASH),
            "http://a123".to_string(),
            format!("http://g2/hash/{}", HASH),
        ]
    );
}

#[test]
fn a_gateway_that_is_a_source_is_not_rendered() {
    let mut link = info();
    link.sources = vec!["http://m/x.iso".to_string(), "http://m/{size}".to_string()];
    let gateways = [
        "http://m/x.iso".to_string(),
        "http://m/{size}".to_string(),
        "http://g".to_string(),
    ];
    assert_eq!(
        build_candidate_urls(&link, &gateways),
        vec![
            "http://m/x.iso".to_string(),
            "http://m/{size}".to_string(),
            "http://m/123".to_string(),
            format!("http://g/hash/{}", HASH),
        ]
    );
}

#[test]
fn a_gateway_that_only_resembles_a_source_is_rendered() {
    let mut link = info();
    link.sources = vec!["http://m/x".to_string()];
    for gateway in [" http://m/x ", "http://m/x ", "http://m/x/"] {
        assert_eq!(
            build_candidate_urls(&link, &[gateway.to_string()]),
            vec!["http://m/x".to_string(), format!("http://m/x/hash/{}", HASH)]
        );
    }
}

#[test]
fn blank_gateways_give_no_candidates() {
    assert!(build_candidate_urls(&info(), &[" ".to_string(), "".to_string()]).is_empty());
}

#[test]
fn reads_and_writes_numbers() {
    for n in [0u64, 7, 10, 99, 100, 1234567890, u64::MAX] {
        assert_eq!(decimal_text(n), n.to_string());
        assert_eq!(parse_number(&n.to_string()), Some(n));
        assert_eq!(to_signed(n), n as i64);
    }
    assert_eq!(parse_number("+007"), Some(7));
    assert_eq!(parse_number("18446744073709551616"), None);
    assert_eq!(parse_number("99999999999999999999999x"), None);
    assert_eq!(to_signed(1u64 << 63), i64::MIN);
    assert_eq!(to_signed((1u64 << 63) - 1), i64::MAX);
}

#[test]
fn splits_and_joins() {
    for text in ["", "|", "a", "a|b", "|a||b|", "ä|ö"] {
        let parts = split(&chars_of(text), 0, '|');
        let expected: Vec<&str> = text.split('|').collect();
        assert_eq!(parts, expected);
        assert_eq!(join(&parts, "|"), text);
    }
}

#[test]
fn replaces_from_the_left() {
    for (text, pattern, with) in [("aaa", "aa", "b"), ("abcabc", "bc", ""), ("xyz", "q", "r")] {
        let replaced = replace(&chars_of(text), &chars_of(pattern), &chars_of(with));
        assert_eq!(replaced.into_iter().collect::<String>(), text.replace(pattern, with));
    }
}
