use image_router::ip::Ipv4;
use image_router::rule::{
    match_ipv4_cidr, match_ipv4_exact, match_ipv4_masked, parse_image_info, random_select, ImageInfo,
    ImageInfoSelectStrategy,
};

#[test]
fn test_parse_image_info() {
    let path = "path/to/image.png".to_string();
    let url = "https://example.com/image.png".to_string();
    let http_url = "http://example.com/image.png".to_string();
    let https_url = "https://example.com/image.png".to_string();
    assert_eq!(parse_image_info(path), ImageInfo::Path("path/to/image.png".to_string()));
    assert_eq!(parse_image_info(url), ImageInfo::Url("https://example.com/image.png".to_string()));
    assert_eq!(parse_image_info(http_url), ImageInfo::Url("http://example.com/image.png".to_string()));
    assert_eq!(parse_image_info(https_url), ImageInfo::Url("https://example.com/image.png".to_string()));
}

#[test]
fn parse_image_info_edge_cases() {
    assert_eq!(parse_image_info("".to_string()), ImageInfo::Path("".to_string()));
    assert_eq!(parse_image_info("http:/x".to_string()), ImageInfo::Path("http:/x".to_string()));
    assert_eq!(parse_image_info("HTTP://x".to_string()), ImageInfo::Path("HTTP://x".to_string()));
    assert_eq!(parse_image_info("http://".to_string()), ImageInfo::Url("http://".to_string()));
    assert_eq!(parse_image_info("ftp://x".to_string()), ImageInfo::Path("ftp://x".to_string()));
}

#[test]
fn image_info_equality() {
    assert_ne!(ImageInfo::Path("a".to_string()), ImageInfo::Url("a".to_string()));
    assert_ne!(ImageInfo::Path("a".to_string()), ImageInfo::Path("b".to_string()));
    assert_eq!(ImageInfo::Url("a".to_string()).duplicate(), ImageInfo::Url("a".to_string()));
}

#[test]
fn exact_match_is_equality() {
    let a = Ipv4::new([10, 0, 0, 5]);
    let b = Ipv4::new([10, 0, 0, 6]);
    assert!(match_ipv4_exact(&a, &a));
    assert!(!match_ipv4_exact(&a, &b));
    assert!(!match_ipv4_exact(&b, &a));
}

#[test]
fn cidr_zero_and_full_prefix() {
    let a = Ipv4::new([1, 2, 3, 4]);
    let b = Ipv4::new([200, 100, 50, 25]);
    assert!(match_ipv4_cidr(&a, &b, 0));
    assert!(!match_ipv4_cidr(&a, &b, 32));
    assert!(match_ipv4_cidr(&a, &a, 32));
    let c = Ipv4::new([1, 2, 3, 6]);
    assert!(!match_ipv4_cidr(&a, &c, 32));
    assert!(match_ipv4_cidr(&a, &c, 30));
    assert!(!match_ipv4_cidr(&a, &c, 31));
}

#[test]
fn cidr_prefix_boundaries() {
    let ip = Ipv4::new([192, 168, 1, 1]);
    let net = Ipv4::new([192, 168, 0, 0]);
    assert!(match_ipv4_cidr(&ip, &net, 16));
    assert!(match_ipv4_cidr(&ip, &net, 23));
    assert!(!match_ipv4_cidr(&ip, &net, 24));
    let other = Ipv4::new([10, 0, 0, 1]);
    assert!(!match_ipv4_cidr(&other, &net, 16));
    assert!(!match_ipv4_cidr(&other, &net, 1));
}

#[test]
fn masked_agrees_with_cidr() {
    let ip = Ipv4::new([192, 168, 1, 77]);
    let rule = Ipv4::new([192, 168, 1, 0]);
    let mask = Ipv4::new([255, 255, 255, 0]);
    assert_eq!(Ipv4::cidr_to_mask(24), [255, 255, 255, 0]);
    assert!(match_ipv4_masked(&ip, &rule, &mask));
    assert!(match_ipv4_cidr(&ip, &rule, 24));
    let far = Ipv4::new([192, 168, 2, 77]);
    assert!(!match_ipv4_masked(&far, &rule, &mask));
    assert!(!match_ipv4_cidr(&far, &rule, 24));
    for p in 0..=32u8 {
        let m = Ipv4::new(Ipv4::cidr_to_mask(p));
        for addr in [[192, 168, 1, 77], [192, 168, 2, 1], [10, 1, 2, 3], [192, 169, 1, 0], [192, 168, 1, 0]] {
            let a = Ipv4::new(addr);
            assert_eq!(match_ipv4_masked(&a, &rule, &m), match_ipv4_cidr(&a, &rule, p));
        }
    }
}

#[test]
fn masked_match_non_contiguous_mask() {
    let ip = Ipv4::new([10, 20, 30, 40]);
    let rule = Ipv4::new([10, 99, 30, 99]);
    let mask = Ipv4::new([255, 0, 255, 0]);
    assert!(match_ipv4_masked(&ip, &rule, &mask));
    let mask2 = Ipv4::new([255, 1, 255, 0]);
    assert!(match_ipv4_masked(&ip, &rule, &mask2) == ((20 & 1) == (99 & 1)));
    let mask3 = Ipv4::new([255, 255, 255, 0]);
    assert!(!match_ipv4_masked(&ip, &rule, &mask3));
}

#[test]
fn fixed_strategy_always_gives_its_image() {
    let s = ImageInfoSelectStrategy::FixToOne(ImageInfo::Path("a.png".to_string()));
    for _ in 0..10 {
        assert_eq!(s.select(), ImageInfo::Path("a.png".to_string()));
    }
}

#[test]
fn random_select_visits_every_image() {
    let images = vec![
        ImageInfo::Path("a.png".to_string()),
        ImageInfo::Path("b.png".to_string()),
        ImageInfo::Url("https://example.com/c.png".to_string()),
    ];
    let mut counts = [0usize; 3];
    let draws = 3000;
    for _ in 0..draws {
        let r = random_select(&images);
        let k = images.iter().position(|x| *x == r).expect("drawn image is one of the list");
        counts[k] += 1;
    }
    for c in counts {
        assert!(c > draws / 6, "counts {:?}", counts);
        assert!(c < draws / 2, "counts {:?}", counts);
    }
}

#[test]
fn random_strategy_with_one_image() {
    let s = ImageInfoSelectStrategy::Random(vec![ImageInfo::Url("https://x/y.png".to_string())]);
    for _ in 0..10 {
        assert_eq!(s.select(), ImageInfo::Url("https://x/y.png".to_string()));
    }
}

#[test]
fn random_from_strings_classifies_each() {
    let items = vec!["path/to/image.png".to_string(), "https://example.com/image.png".to_string()];
    let s = ImageInfoSelectStrategy::random_from_strings(&items);
    match s {
        ImageInfoSelectStrategy::Random(images) => assert_eq!(
            images,
            vec![
                ImageInfo::Path("path/to/image.png".to_string()),
                ImageInfo::Url("https://example.com/image.png".to_string()),
            ]
        ),
        ImageInfoSelectStrategy::FixToOne(_) => panic!("expected a random strategy"),
    }
}
