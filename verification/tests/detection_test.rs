use adverify::bid_stream::{App, Banner, BidRequest, Device, Geo, Impression, Site, User};
use adverify::detection::{merge_reasons, DetectorFindings, Finding, GeneralizedFraudDetector};

fn device(ua: &str, ifa: &str, dnt: u8, lmt: u8, w: Option<u32>, h: Option<u32>, os: &str) -> Device {
    Device {
        ua: ua.into(),
        geo: None,
        dnt,
        lmt,
        ip: String::new(),
        devicetype: Some(4),
        make: String::new(),
        model: String::new(),
        os: os.into(),
        osv: String::new(),
        w,
        h,
        ppi: None,
        language: "en".into(),
        carrier: String::new(),
        connectiontype: None,
        ifa: ifa.into(),
    }
}

fn app(name: &str, bundle: &str, paid: u8) -> App {
    App {
        id: String::new(),
        name: name.into(),
        bundle: bundle.into(),
        domain: String::new(),
        cat: vec![],
        ver: String::new(),
        paid,
        publisher: None,
    }
}

fn site() -> Site {
    Site {
        id: "site-1".into(),
        name: "TestSite".into(),
        domain: "testsite.com".into(),
        cat: vec![],
        publisher: None,
    }
}

fn banner_imp(w: u32, h: u32) -> Impression {
    Impression {
        id: "1".into(),
        banner: Some(Banner { w: Some(w), h: Some(h), pos: None, battr: vec![] }),
        video: None,
        bidfloorcur: "USD".into(),
        instl: 0,
        tagid: String::new(),
        secure: 0,
    }
}

fn request(device: Option<Device>, app: Option<App>, imp: Vec<Impression>, has_site: bool) -> BidRequest {
    BidRequest {
        id: "detect-test".into(),
        imp,
        device,
        user: None,
        app,
        site: if has_site { Some(site()) } else { None },
    }
}

fn summary(f: &DetectorFindings) -> Vec<(u32, String)> {
    f.findings.iter().map(|x| (x.weight, x.reason.clone())).collect()
}

#[test]
fn click_injection_flags_missing_ifa_and_evasive_flags() {
    let d = device("Mozilla/5.0 (Linux; Android 14) AppleWebKit/537.36", "", 1, 1, Some(1080), Some(2400), "Android");
    let r = request(Some(d), None, vec![], false);
    let f = GeneralizedFraudDetector::new().detect_click_injection(&r);
    assert_eq!(f.threshold, 40);
    assert_eq!(
        summary(&f),
        vec![
            (25, "Missing or zeroed IFA — possible click injection farm".to_string()),
            (15, "Both DNT and LMT set — evasive device signals".to_string()),
        ]
    );
}

#[test]
fn click_injection_zeroed_ifa_and_tiny_screen() {
    let d = device("x", "00000000-0000-0000-0000-000000000000", 0, 0, Some(50), Some(60), "Android");
    let r = request(Some(d), None, vec![], false);
    let f = GeneralizedFraudDetector::new().detect_click_injection(&r);
    assert_eq!(
        summary(&f),
        vec![
            (25, "Missing or zeroed IFA — possible click injection farm".to_string()),
            (20, "Suspicious device dimensions (50x60) — possible emulator".to_string()),
        ]
    );
}

#[test]
fn click_injection_zero_width_screen() {
    let d = device("x", "valid", 0, 0, Some(0), Some(2400), "Android");
    let f = GeneralizedFraudDetector::new().detect_click_injection(&request(Some(d), None, vec![], false));
    assert_eq!(summary(&f), vec![(20, "Suspicious device dimensions (0x2400) — possible emulator".to_string())]);
}

#[test]
fn click_injection_without_device() {
    let f = GeneralizedFraudDetector::new().detect_click_injection(&request(None, None, vec![], false));
    assert_eq!(summary(&f), vec![(10, "Missing device object — incomplete request".to_string())]);
}

#[test]
fn bot_user_agent_is_named() {
    let d = device(
        "Mozilla/5.0 (compatible; Googlebot/2.1; +http://www.google.com/bot.html)",
        "valid-ifa",
        0,
        0,
        Some(1080),
        Some(2400),
        "Android",
    );
    let f = GeneralizedFraudDetector::new().detect_bot_traffic(&request(Some(d), None, vec![], false));
    assert_eq!(f.threshold, 50);
    assert_eq!(summary(&f), vec![(45, "Known bot user-agent detected: 'googlebot'".to_string())]);
}

#[test]
fn headless_browser_and_unknown_os() {
    let d = device("Mozilla/5.0 HeadlessChrome Puppeteer", "valid", 0, 0, None, None, "UNKNOWN");
    let f = GeneralizedFraudDetector::new().detect_bot_traffic(&request(Some(d), None, vec![], false));
    assert_eq!(
        summary(&f),
        vec![
            (35, "Headless browser detected: 'headless'".to_string()),
            (35, "Headless browser detected: 'puppeteer'".to_string()),
            (15, "Missing or unknown OS".to_string()),
        ]
    );
}

#[test]
fn suspicious_device_type_and_language_mismatch() {
    let mut d = device("Mozilla/5.0", "valid", 0, 0, None, None, "Android");
    d.devicetype = Some(7);
    d.language = "fr".into();
    d.geo = Some(Geo {
        country: "USA".into(),
        region: String::new(),
        city: String::new(),
        zip: String::new(),
        location_type: None,
    });
    let f = GeneralizedFraudDetector::new().detect_bot_traffic(&request(Some(d), None, vec![], false));
    assert_eq!(
        summary(&f),
        vec![
            (15, "Suspicious device type (7) — often spoofed".to_string()),
            (10, "Geo country 'USA' but language 'fr' — possible proxy".to_string()),
        ]
    );
}

#[test]
fn bot_traffic_without_device() {
    let f = GeneralizedFraudDetector::new().detect_bot_traffic(&request(None, None, vec![], false));
    assert_eq!(summary(&f), vec![(30, "No device object — cannot verify user-agent".to_string())]);
}

#[test]
fn laundering_both_app_and_site() {
    let r = request(None, Some(app("TestApp", "com.test.app", 0)), vec![], true);
    let f = GeneralizedFraudDetector::new().detect_impression_laundering(&r);
    assert_eq!(f.threshold, 40);
    assert!(f.findings.iter().any(|x| x.reason.contains("app and site")));
    assert_eq!(summary(&f), vec![(35, "Both app and site objects present — invalid OpenRTB".to_string())]);
}

#[test]
fn laundering_name_bundle_mismatch_and_paid() {
    let r = request(None, Some(app("Fun Game", "org.other.thing", 1)), vec![], false);
    let f = GeneralizedFraudDetector::new().detect_impression_laundering(&r);
    assert_eq!(
        summary(&f),
        vec![
            (15, "App name 'Fun Game' doesn't match bundle 'org.other.thing'".to_string()),
            (10, "Paid app serving ads — potentially hijacked".to_string()),
        ]
    );
}

#[test]
fn laundering_name_without_bundle_and_no_inventory() {
    let r = request(None, Some(app("Example", "", 0)), vec![], false);
    let f = GeneralizedFraudDetector::new().detect_impression_laundering(&r);
    assert_eq!(summary(&f), vec![(20, "App has name but no bundle — potential domain spoofing".to_string())]);
    let none = GeneralizedFraudDetector::new().detect_impression_laundering(&request(None, None, vec![], false));
    assert_eq!(summary(&none), vec![(15, "Neither app nor site present — unidentified inventory".to_string())]);
}

#[test]
fn bundle_piece_matches_name() {
    assert!(adverify::detection::bundle_mentions_name("example app", "com.example.app"));
    assert!(!adverify::detection::bundle_mentions_name("fungame", "org.other.thing"));
    // An empty piece occurs in every name.
    assert!(adverify::detection::bundle_mentions_name("zzz", "org..thing"));
}

#[test]
fn ad_stacking_oversized_banner() {
    let d = device("Mozilla/5.0", "valid-ifa", 0, 0, Some(375), Some(812), "iOS");
    let r = request(Some(d), None, vec![banner_imp(1920, 1080)], false);
    let f = GeneralizedFraudDetector::new().detect_ad_stacking(&r);
    assert_eq!(
        summary(&f),
        vec![(30, "Ad (1920x1080) larger than viewport (375x812) — potential stacking".to_string())]
    );
}

#[test]
fn ad_stacking_total_area_and_pixel_tracker() {
    let d = device("Mozilla/5.0", "valid-ifa", 0, 0, Some(100), Some(100), "iOS");
    let r = request(Some(d), None, vec![banner_imp(100, 80), banner_imp(1, 1)], false);
    let f = GeneralizedFraudDetector::new().detect_ad_stacking(&r);
    // total area 8001 <= 15000: no stacking finding; the 1x1 banner is a tracker.
    assert_eq!(summary(&f), vec![(20, "Suspiciously small creative (1x1) — pixel tracker".to_string())]);
    let r2 = request(Some(device("a", "b", 0, 0, Some(100), Some(100), "iOS")), None, vec![banner_imp(100, 100), banner_imp(100, 60)], false);
    let f2 = GeneralizedFraudDetector::new().detect_ad_stacking(&r2);
    let expected = "Total ad area (16000) exceeds 150% of viewport (10000) — stacking likely".to_string();
    assert_eq!(summary(&f2), vec![(25, expected.clone()), (25, expected)]);
}

#[test]
fn detector_findings_in_order() {
    let d = GeneralizedFraudDetector::new().detect(&request(None, None, vec![], false));
    let f = &d.detectors;
    assert_eq!(f.len(), 4);
    assert_eq!(f.iter().map(|x| x.threshold).collect::<Vec<_>>(), vec![40, 40, 50, 40]);
    assert_eq!(f.iter().map(|x| x.flags_at_threshold).collect::<Vec<_>>(), vec![true, false, false, false]);
    assert!(f.iter().all(|x| !x.decisive));
    assert_eq!(f[3].findings.len(), 0);
}

#[test]
fn benign_request_has_no_findings() {
    let d = Device {
        ua: "Mozilla/5.0 (Linux; Android 14; Pixel 9 Pro) AppleWebKit/537.36 Chrome/125.0".into(),
        geo: None,
        dnt: 0,
        lmt: 0,
        ip: String::new(),
        devicetype: Some(4),
        make: "Google".into(),
        model: "Pixel 9 Pro".into(),
        os: "Android".into(),
        osv: "14.0".into(),
        w: Some(1080),
        h: Some(2400),
        ppi: None,
        language: "en".into(),
        carrier: "Verizon".into(),
        connectiontype: Some(6),
        ifa: "a1b2c3d4-e5f6-7890-abcd-ef1234567890".into(),
    };
    let mut a = app("Example", "com.example.app", 0);
    a.id = "com.example".into();
    let mut imp = banner_imp(300, 250);
    imp.banner.as_mut().unwrap().pos = Some(7);
    let mut r = request(Some(d), Some(a), vec![imp], false);
    r.user = Some(User { id: String::new(), buyeruid: String::new(), yob: None, gender: String::new(), geo: None });
    let d = GeneralizedFraudDetector::new().detect(&r);
    assert!(d.detectors.iter().all(|x| x.findings.is_empty()));
    assert!(!d.is_fraudulent);
}

#[test]
fn merged_reasons_keep_order() {
    let groups = vec![vec!["a".to_string()], vec![], vec!["b".to_string(), "c".to_string()]];
    assert_eq!(merge_reasons(&groups), vec!["a".to_string(), "b".to_string(), "c".to_string()]);
}

#[test]
fn confidence_is_capped_and_compared_with_the_threshold() {
    let two = vec![Finding { weight: 25, reason: "a".into() }, Finding { weight: 15, reason: "b".into() }];
    let f = DetectorFindings { findings: two.clone(), threshold: 40, flags_at_threshold: true, decisive: false };
    assert_eq!(f.confidence(), 40);
    // Equal to the threshold flags only where that is allowed.
    assert!(f.flags());
    let strict = DetectorFindings { findings: two.clone(), threshold: 40, flags_at_threshold: false, decisive: false };
    assert!(!strict.flags());
    let decisive = DetectorFindings { findings: two, threshold: 40, flags_at_threshold: false, decisive: true };
    assert!(decisive.flags());
    let below = DetectorFindings {
        findings: vec![Finding { weight: 35, reason: "a".into() }],
        threshold: 40,
        flags_at_threshold: true,
        decisive: false,
    };
    assert!(!below.flags());
    let g = DetectorFindings {
        findings: vec![
            Finding { weight: 45, reason: "a".into() },
            Finding { weight: 45, reason: "b".into() },
            Finding { weight: 35, reason: "c".into() },
        ],
        threshold: 50,
        flags_at_threshold: false,
        decisive: false,
    };
    assert_eq!(g.confidence(), 100);
    assert!(g.flags());
}

#[test]
fn union_of_confidences_decides_without_any_flag() {
    // No-device request without app or site: click injection 10, laundering 15,
    // bot traffic 30, ad stacking 0; none flags, union 1 - 0.9*0.85*0.7 = 0.4645.
    let d = GeneralizedFraudDetector::new().detect(&request(None, None, vec![], false));
    let c: Vec<u32> = d.detectors.iter().map(|x| x.confidence()).collect();
    assert_eq!(c, vec![10, 15, 30, 0]);
    assert!(d.detectors.iter().all(|x| !x.flags()));
    assert!(!d.confidence_over_half);
    assert!(!d.is_fraudulent);
    // With a site as well: laundering finds nothing, the union is lower still.
    let d2 = GeneralizedFraudDetector::new().detect(&request(None, None, vec![], true));
    assert!(!d2.is_fraudulent);
}

#[test]
fn one_confident_detector_carries_the_union() {
    // A crawler user agent alone gives bot traffic 45; with a headless browser 80.
    let d = device("Googlebot HeadlessChrome", "valid-ifa", 0, 0, Some(1080), Some(2400), "Android");
    let det = GeneralizedFraudDetector::new().detect(&request(Some(d), Some(app("Example", "com.example.app", 0)), vec![], false));
    assert_eq!(det.detectors[2].confidence(), 80);
    assert!(det.confidence_over_half);
    assert!(det.is_fraudulent);
}

fn make_test_request(
    ifa: &str,
    ua: &str,
    dnt: u8,
    lmt: u8,
    devicetype: Option<u8>,
    screen_w: Option<u32>,
    screen_h: Option<u32>,
    os: &str,
    language: &str,
    country: &str,
    app_bundle: &str,
    app_name: &str,
    app_paid: u8,
) -> BidRequest {
    BidRequest {
        id: "test".into(),
        imp: vec![],
        device: Some(Device {
            ua: ua.into(),
            geo: Some(Geo {
                country: country.into(),
                region: String::new(),
                city: String::new(),
                zip: String::new(),
                location_type: None,
            }),
            dnt,
            lmt,
            ip: String::new(),
            devicetype,
            make: String::new(),
            model: String::new(),
            os: os.into(),
            osv: String::new(),
            w: screen_w,
            h: screen_h,
            ppi: None,
            language: language.into(),
            carrier: String::new(),
            connectiontype: None,
            ifa: ifa.into(),
        }),
        user: Some(User { id: String::new(), buyeruid: String::new(), yob: None, gender: String::new(), geo: None }),
        app: Some(app(app_name, app_bundle, app_paid)),
        site: None,
    }
}

#[test]
fn test_benign_request() {
    let req = make_test_request(
        "a1b2c3d4-e5f6-7890-abcd-ef1234567890",
        "Mozilla/5.0 (Linux; Android 14; Pixel 9) AppleWebKit/537.36",
        0, 0,
        Some(4),
        Some(1080), Some(2400),
        "Android", "en", "USA",
        "com.example.app", "Example App", 0,
    );
    let detector = GeneralizedFraudDetector::new();
    let score = detector.detect(&req);
    assert!(!score.is_fraudulent, "Benign request flagged: {:?}", score.detectors);
}

#[test]
fn test_bot_ua_detection() {
    let req = make_test_request(
        "00000000-0000-0000-0000-000000000000",
        "Mozilla/5.0 (compatible; Googlebot/2.1; +http://www.google.com/bot.html)",
        0, 0,
        Some(4),
        Some(1080), Some(2400),
        "Android", "en", "USA",
        "", "", 0,
    );
    let detector = GeneralizedFraudDetector::new();
    let score = detector.detect(&req);
    assert!(score.is_fraudulent, "Bot should be detected");
    let reasons: Vec<String> = score.detectors.iter().flat_map(|d| d.findings.iter().map(|f| f.reason.clone())).collect();
    assert!(reasons.iter().any(|r| r.contains("googlebot")), "Should mention googlebot: {:?}", reasons);
}

#[test]
fn test_missing_ifa_detection() {
    let req = make_test_request(
        "", "Mozilla/5.0 (Linux; Android 14) AppleWebKit/537.36",
        1, 1,
        Some(4),
        Some(1080), Some(2400),
        "Android", "en", "USA",
        "com.example", "Example", 0,
    );
    let detector = GeneralizedFraudDetector::new();
    let score = detector.detect(&req);
    assert!(score.is_fraudulent, "Missing IFA + DNT/LMT should be flagged");
}

#[test]
fn test_ad_stacking_oversized() {
    let d = device("Mozilla/5.0", "valid-ifa", 0, 0, Some(375), Some(812), "iOS");
    let req = BidRequest {
        id: "stacking_test".into(),
        imp: vec![banner_imp(1920, 1080)],
        device: Some(d),
        user: None,
        app: Some(app("App", "com.app", 0)),
        site: None,
    };
    let detector = GeneralizedFraudDetector::new();
    let score = detector.detect(&req);
    assert!(score.is_fraudulent, "Oversized ad should be flagged: {:?}", score.detectors);
}

#[test]
fn test_detect_known_bot() {
    let d = device(
        "Mozilla/5.0 (compatible; Googlebot/2.1; +http://www.google.com/bot.html)",
        "valid-ifa", 0, 0, Some(1080), Some(2400), "Android",
    );
    let req = request(Some(d), None, vec![], false);
    let detector = GeneralizedFraudDetector::new();
    let score = detector.detect(&req);
    assert!(score.is_fraudulent);
    assert!(score.confidence_over_half);
}

#[test]
fn test_detect_missing_ifa() {
    let d = device("Mozilla/5.0 (Linux; Android 14) AppleWebKit/537.36", "", 1, 1, Some(1080), Some(2400), "Android");
    let req = request(Some(d), None, vec![], false);
    let detector = GeneralizedFraudDetector::new();
    let score = detector.detect(&req);
    assert!(score.is_fraudulent);
}

#[test]
fn test_detect_impression_laundering_both_app_site() {
    let mut a = app("TestApp", "com.test.app", 0);
    a.id = "app-1".into();
    let req = request(None, Some(a), vec![], true);
    let detector = GeneralizedFraudDetector::new();
    let score = detector.detect(&req);
    assert!(score.is_fraudulent);
    let reasons: Vec<String> = score.detectors.iter().flat_map(|d| d.findings.iter().map(|f| f.reason.clone())).collect();
    assert!(reasons.iter().any(|r| r.contains("app and site")));
}

#[test]
fn test_detect_ad_stacking() {
    let d = device("Mozilla/5.0", "valid-ifa", 0, 0, Some(375), Some(812), "iOS");
    let req = request(Some(d), None, vec![banner_imp(1920, 1080)], false);
    let detector = GeneralizedFraudDetector::new();
    let score = detector.detect(&req);
    assert!(score.is_fraudulent);
}

#[test]
fn test_benign_request_not_flagged() {
    let d = Device {
        ua: "Mozilla/5.0 (Linux; Android 14; Pixel 9 Pro) AppleWebKit/537.36 Chrome/125.0".into(),
        geo: None,
        dnt: 0,
        lmt: 0,
        ip: String::new(),
        devicetype: Some(4),
        make: "Google".into(),
        model: "Pixel 9 Pro".into(),
        os: "Android".into(),
        osv: "14.0".into(),
        w: Some(1080),
        h: Some(2400),
        ppi: None,
        language: "en".into(),
        carrier: "Verizon".into(),
        connectiontype: Some(6),
        ifa: "a1b2c3d4-e5f6-7890-abcd-ef1234567890".into(),
    };
    let mut a = app("Example", "com.example.app", 0);
    a.id = "com.example".into();
    a.domain = "example.com".into();
    let mut imp = banner_imp(300, 250);
    imp.banner.as_mut().unwrap().pos = Some(7);
    imp.tagid = "tag-1".into();
    imp.secure = 1;
    let req = request(Some(d), Some(a), vec![imp], false);
    let detector = GeneralizedFraudDetector::new();
    let score = detector.detect(&req);
    assert!(!score.is_fraudulent, "Benign request flagged: {:?}", score.detectors);
}

#[test]
fn bot_traffic_at_exactly_half_does_not_flag() {
    // A headless browser (35) with a missing OS (15) is exactly 50: not above 50.
    let d = device("HeadlessChrome", "valid-ifa", 0, 0, Some(1080), Some(2400), "");
    let f = GeneralizedFraudDetector::new().detect_bot_traffic(&request(Some(d), None, vec![], false));
    assert_eq!(f.confidence(), 50);
    assert!(!f.flags());
}

#[test]
fn two_pixel_trackers_do_not_flag_but_an_oversized_banner_does() {
    let screen = || device("a", "b", 0, 0, Some(100), Some(100), "iOS");
    let trackers = request(Some(screen()), None, vec![banner_imp(1, 1), banner_imp(1, 1)], false);
    let f = GeneralizedFraudDetector::new().detect_ad_stacking(&trackers);
    assert_eq!(f.confidence(), 40);
    assert!(!f.decisive);
    assert!(!f.flags());
    let big = request(Some(screen()), None, vec![banner_imp(200, 200)], false);
    let g = GeneralizedFraudDetector::new().detect_ad_stacking(&big);
    assert_eq!(g.confidence(), 30);
    assert!(g.decisive);
    assert!(g.flags());
}
