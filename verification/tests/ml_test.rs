use adverify::bid_stream::{App, BidRequest, Device, Geo, Impression, Site};
use adverify::ml::{bundle_and_name_related, feature_signals, is_us_country};

fn device() -> Device {
    Device {
        ua: "Mozilla/5.0".into(),
        geo: None,
        dnt: 0,
        lmt: 0,
        ip: String::new(),
        devicetype: Some(4),
        make: String::new(),
        model: String::new(),
        os: "Android".into(),
        osv: String::new(),
        w: Some(1080),
        h: Some(2400),
        ppi: None,
        language: "en".into(),
        carrier: String::new(),
        connectiontype: Some(6),
        ifa: "valid-ifa".into(),
    }
}

fn imp() -> Impression {
    Impression {
        id: "1".into(),
        banner: None,
        video: None,
        bidfloorcur: "USD".into(),
        instl: 0,
        tagid: String::new(),
        secure: 0,
    }
}

#[test]
fn signals_of_a_device_only_request() {
    let request = BidRequest { id: "test".into(), imp: vec![imp()], device: Some(device()), user: None, app: None, site: None };
    let s = feature_signals(&request);
    assert!(s.has_device);
    assert!(!s.has_user);
    assert!(!s.has_app);
    assert_eq!(s.impression_count, 1);
    assert_eq!(s.device_type, Some(4));
    assert_eq!(s.connection_type, Some(6));
    assert!(s.os_known);
    assert!(s.ifa_present);
    assert_eq!(s.screen, Some((1080, 2400)));
    assert!(!s.language_geo_mismatch);
}

#[test]
fn signals_of_an_app_and_site_request() {
    let mut d = device();
    d.os = "Unknown".into();
    d.ifa = "00000000-0000-0000-0000-000000000000".into();
    d.w = Some(0);
    d.language = "de".into();
    d.geo = Some(Geo { country: "United States".into(), region: String::new(), city: String::new(), zip: String::new(), location_type: None });
    let app = App { id: String::new(), name: "My Game".into(), bundle: "com.other".into(), domain: String::new(), cat: vec![], ver: String::new(), paid: 0, publisher: None };
    let site = Site { id: String::new(), name: String::new(), domain: String::new(), cat: vec![], publisher: None };
    let request = BidRequest { id: "t".into(), imp: vec![], device: Some(d), user: None, app: Some(app), site: Some(site) };
    let s = feature_signals(&request);
    assert!(!s.os_known);
    assert!(!s.ifa_present);
    assert_eq!(s.screen, None);
    assert!(s.has_geo);
    assert!(s.language_geo_mismatch);
    assert!(s.has_app && s.app_has_bundle);
    assert!(s.bundle_name_mismatch);
    assert!(s.app_and_site);
}

#[test]
fn no_device_gives_empty_device_signals() {
    let request = BidRequest { id: "t".into(), imp: vec![], device: None, user: None, app: None, site: None };
    let s = feature_signals(&request);
    assert!(!s.has_device && !s.has_geo && !s.os_known && !s.ifa_present);
    assert_eq!((s.dnt, s.lmt), (0, 0));
}

#[test]
fn country_and_bundle_helpers() {
    assert!(is_us_country("usa"));
    assert!(is_us_country("united states"));
    assert!(is_us_country("us"));
    assert!(!is_us_country("uk"));
    assert!(bundle_and_name_related("test app", "com.testapp"));
    assert!(bundle_and_name_related("a", "a"));
    assert!(!bundle_and_name_related("game", "com.other"));
}

#[test]
fn test_feature_extraction() {
    let request = BidRequest { id: "test".into(), imp: vec![imp()], device: Some(device()), user: None, app: None, site: None };
    let s = feature_signals(&request);
    assert!(s.has_device); // Has device
    assert!(!s.has_user); // No user
    assert!(!s.has_app); // No app
}

#[test]
fn impression_count_is_capped_at_ten() {
    let few = BidRequest { id: "t".into(), imp: vec![imp(), imp(), imp()], device: None, user: None, app: None, site: None };
    assert_eq!(feature_signals(&few).capped_impressions(), 3);
    let many = BidRequest { id: "t".into(), imp: (0..12).map(|_| imp()).collect(), device: None, user: None, app: None, site: None };
    let s = feature_signals(&many);
    assert_eq!(s.impression_count, 12);
    assert_eq!(s.capped_impressions(), 10);
}
