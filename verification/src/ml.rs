//! The request signals behind the fraud model's feature vector.
//!
//! The feature vector itself, the logistic regression and the normalisation are
//! floating-point and built by the application layer from these signals.
use vstd::prelude::*;

use crate::bid_stream::BidRequest;
use crate::text::{
    ascii_lower, chars_of, contains, contains_exec, eq_ignore_ascii_case, eq_ignore_ascii_case_exec, lowercase,
    remove_char, starts_with, starts_with_exec, to_lowercase, without_char,
};

verus! {

/// What the feature extractor reads from a bid request.
#[derive(Debug, Clone, Copy, PartialEq, Eq)]
pub struct FeatureSignals {
    /// A device object is present.
    pub has_device: bool,
    /// The device's do-not-track flag (0 without a device).
    pub dnt: u8,
    /// The device's limit-ad-tracking flag (0 without a device).
    pub lmt: u8,
    /// The device gives a location.
    pub has_geo: bool,
    /// The device type (OpenRTB 5.21).
    pub device_type: Option<u8>,
    /// The OS is given and not "unknown" (in any ASCII case).
    pub os_known: bool,
    /// The connection type (OpenRTB 5.22).
    pub connection_type: Option<u8>,
    /// The advertising ID is present and not zeroed.
    pub ifa_present: bool,
    /// The screen size, when the device gives both sides and neither is zero.
    pub screen: Option<(u32, u32)>,
    /// A user object is present.
    pub has_user: bool,
    /// An app object is present.
    pub has_app: bool,
    /// The app gives a bundle.
    pub app_has_bundle: bool,
    /// The app gives a name and a bundle, and neither (lower-cased, the name
    /// without spaces) contains the other.
    pub bundle_name_mismatch: bool,
    /// The number of impressions.
    pub impression_count: usize,
    /// Both an app and a site object are present.
    pub app_and_site: bool,
    /// The device's location is in the United States but its language is not English.
    pub language_geo_mismatch: bool,
}

impl FeatureSignals {
    /// The number of impressions, capped at 10 (the scale of the impression feature).
    pub fn capped_impressions(&self) -> (r: usize)
        ensures
            r == if self.impression_count > 10 {
                10
            } else {
                self.impression_count
            },
    {
        if self.impression_count > 10 {
            10
        } else {
            self.impression_count
        }
    }
}

/// The lower-cased names of the United States that a location may give.
pub open spec fn is_us_country_spec(country_lower: Seq<char>) -> bool {
    country_lower == "usa"@ || country_lower == "united states"@ || country_lower == "us"@
}

/// A lower-cased app name (spaces removed) and bundle where one contains the other.
pub open spec fn bundle_and_name_related_spec(name_lower: Seq<char>, bundle_lower: Seq<char>) -> bool {
    let name = without_char(name_lower, ' ');
    contains(bundle_lower, name) || contains(name, bundle_lower)
}

/// The feature signals of a request.
pub open spec fn feature_signals_spec(req: BidRequest) -> FeatureSignals {
    let (has_device, dnt, lmt, has_geo, device_type, os_known, connection_type, ifa_present, screen) =
        match req.device {
        Some(d) => (
            true,
            d.dnt,
            d.lmt,
            d.geo is Some,
            d.devicetype,
            !(d.os@.len() == 0 || eq_ignore_ascii_case(d.os@, "unknown"@)),
            d.connectiontype,
            !(d.ifa@.len() == 0 || d.ifa@ == "00000000-0000-0000-0000-000000000000"@),
            match (d.w, d.h) {
                (Some(w), Some(h)) => if w > 0 && h > 0 {
                    Some((w, h))
                } else {
                    None
                },
                _ => None,
            },
        ),
        None => (false, 0u8, 0u8, false, None, false, None, false, None),
    };
    let (has_app, app_has_bundle, bundle_name_mismatch) = match req.app {
        Some(a) => (
            true,
            a.bundle@.len() > 0,
            a.name@.len() > 0 && a.bundle@.len() > 0 && !bundle_and_name_related_spec(
                lowercase(a.name@),
                lowercase(a.bundle@),
            ),
        ),
        None => (false, false, false),
    };
    let language_geo_mismatch = match req.device {
        Some(d) => match d.geo {
            Some(g) => g.country@.len() > 0 && d.language@.len() > 0 && is_us_country_spec(
                lowercase(g.country@),
            ) && !starts_with(d.language@, "en"@),
            None => false,
        },
        None => false,
    };
    FeatureSignals {
        has_device,
        dnt,
        lmt,
        has_geo,
        device_type,
        os_known,
        connection_type,
        ifa_present,
        screen,
        has_user: req.user is Some,
        has_app,
        app_has_bundle,
        bundle_name_mismatch,
        impression_count: req.imp@.len() as usize,
        app_and_site: req.app is Some && req.site is Some,
        language_geo_mismatch,
    }
}

/// Whether a lower-cased country names the United States.
pub fn is_us_country(country_lower: &str) -> (r: bool)
    ensures
        r == is_us_country_spec(country_lower@),
{
    let c = String::from_str(country_lower);
    c == String::from_str("usa") || c == String::from_str("united states") || c == String::from_str(
        "us",
    )
}

/// Whether a lower-cased app name (spaces removed) and bundle contain one another.
pub fn bundle_and_name_related(name_lower: &str, bundle_lower: &str) -> (r: bool)
    ensures
        r == bundle_and_name_related_spec(name_lower@, bundle_lower@),
{
    let name = remove_char(&chars_of(name_lower), ' ');
    let bundle = chars_of(bundle_lower);
    contains_exec(&bundle, &name) || contains_exec(&name, &bundle)
}

/// The feature signals of a request.
pub fn feature_signals(request: &BidRequest) -> (r: FeatureSignals)
    ensures
        r == feature_signals_spec(*request),
{
    let mut s = FeatureSignals {
        has_device: false,
        dnt: 0,
        lmt: 0,
        has_geo: false,
        device_type: None,
        os_known: false,
        connection_type: None,
        ifa_present: false,
        screen: None,
        has_user: request.user.is_some(),
        has_app: false,
        app_has_bundle: false,
        bundle_name_mismatch: false,
        impression_count: request.imp.len(),
        app_and_site: request.app.is_some() && request.site.is_some(),
        language_geo_mismatch: false,
    };
    match &request.device {
        Some(d) => {
            s.has_device = true;
            s.dnt = d.dnt;
            s.lmt = d.lmt;
            s.has_geo = d.geo.is_some();
            s.device_type = d.devicetype;
            let os = chars_of(d.os.as_str());
            let unknown = chars_of("unknown");
            s.os_known = !(os.len() == 0 || eq_ignore_ascii_case_exec(&os, &unknown));
            s.connection_type = d.connectiontype;
            let zero = String::from_str("00000000-0000-0000-0000-000000000000");
            s.ifa_present = !(d.ifa.as_str().is_empty() || d.ifa == zero);
            s.screen = match (d.w, d.h) {
                (Some(w), Some(h)) => if w > 0 && h > 0 {
                    Some((w, h))
                } else {
                    None
                },
                _ => None,
            };
            match &d.geo {
                Some(g) => {
                    if !g.country.as_str().is_empty() && !d.language.as_str().is_empty() {
                        let country_lower = to_lowercase(g.country.as_str());
                        let lang = chars_of(d.language.as_str());
                        let en = chars_of("en");
                        s.language_geo_mismatch = is_us_country(country_lower.as_str())
                            && !starts_with_exec(&lang, &en);
                    }
                },
                None => {},
            }
        },
        None => {},
    }
    match &request.app {
        Some(a) => {
            s.has_app = true;
            s.app_has_bundle = !a.bundle.as_str().is_empty();
            if !a.name.as_str().is_empty() && !a.bundle.as_str().is_empty() {
                let name_lower = to_lowercase(a.name.as_str());
                let bundle_lower = to_lowercase(a.bundle.as_str());
                s.bundle_name_mismatch = !bundle_and_name_related(
                    name_lower.as_str(),
                    bundle_lower.as_str(),
                );
            }
        },
        None => {},
    }
    s
}

/// The language/location mismatch signal fires exactly when the device's
/// location gives a country whose lower-cased name is "usa", "united states" or
/// "us", and its language is given and does not begin with "en": a device
/// located elsewhere never shows the mismatch, whatever its language.
pub proof fn lemma_language_mismatch_needs_us_location(req: BidRequest)
    ensures
        feature_signals_spec(req).language_geo_mismatch <==> (req.device matches Some(d)
            && d.geo matches Some(g) && g.country@.len() > 0 && (lowercase(g.country@) == "usa"@
            || lowercase(g.country@) == "united states"@ || lowercase(g.country@) == "us"@)
            && d.language@.len() > 0 && !(d.language@.len() >= 2 && d.language@[0] == 'e'
            && d.language@[1] == 'n')),
{
    reveal_strlit("en");
    match req.device {
        Some(d) => {
            let l = d.language@;
            if l.len() >= 2 && l[0] == 'e' && l[1] == 'n' {
                assert(l.subrange(0, 2) =~= "en"@);
            }
            if starts_with(l, "en"@) {
                assert(l.subrange(0, 2)[0] == l[0]);
                assert(l.subrange(0, 2)[1] == l[1]);
            }
        },
        None => {},
    }
}

/// Spaces in the app name never matter to the name/bundle relation.
pub proof fn lemma_name_spaces_do_not_matter(name: Seq<char>, bundle: Seq<char>)
    ensures
        bundle_and_name_related_spec(name, bundle) == bundle_and_name_related_spec(
            without_char(name, ' '),
            bundle,
        ),
{
    crate::text::lemma_without_char_idempotent(name, ' ');
}

/// An app whose bundle holds its space-free lower-cased name is related to it,
/// and so is one whose space-free name holds its bundle.
pub proof fn lemma_name_inside_bundle_is_related(name: Seq<char>, head: Seq<char>, tail: Seq<char>)
    ensures
        bundle_and_name_related_spec(name, head + without_char(name, ' ') + tail),
{
    let t = without_char(name, ' ');
    let b = head + t + tail;
    assert(b.subrange(head.len() as int, (head.len() + t.len()) as int) =~= t);
    assert(crate::text::occurs_at(b, t, head.len() as int));
}

/// What each feature signal reads from the request: a device, a user, an app;
/// the device's flags, location, types and screen (both sides given and
/// non-zero); an OS that is given and is not "unknown" in any ASCII case; an
/// advertising ID that is given and not all zeros; an app bundle; the number of
/// impressions; and both an app and a site.
pub proof fn lemma_feature_signals_read_the_request(req: BidRequest)
    ensures
        feature_signals_spec(req).has_device <==> req.device is Some,
        feature_signals_spec(req).has_user <==> req.user is Some,
        feature_signals_spec(req).has_app <==> req.app is Some,
        feature_signals_spec(req).app_and_site <==> (req.app is Some && req.site is Some),
        feature_signals_spec(req).impression_count == req.imp@.len() as usize,
        feature_signals_spec(req).app_has_bundle <==> (req.app matches Some(a) && a.bundle@.len() > 0),
        req.device is None ==> {
            &&& feature_signals_spec(req).dnt == 0
            &&& feature_signals_spec(req).lmt == 0
            &&& !feature_signals_spec(req).has_geo
            &&& feature_signals_spec(req).device_type is None
            &&& !feature_signals_spec(req).os_known
            &&& feature_signals_spec(req).connection_type is None
            &&& !feature_signals_spec(req).ifa_present
            &&& feature_signals_spec(req).screen is None
            &&& !feature_signals_spec(req).language_geo_mismatch
        },
        req.device matches Some(d) ==> {
            &&& feature_signals_spec(req).dnt == d.dnt
            &&& feature_signals_spec(req).lmt == d.lmt
            &&& feature_signals_spec(req).has_geo == d.geo is Some
            &&& feature_signals_spec(req).device_type == d.devicetype
            &&& feature_signals_spec(req).connection_type == d.connectiontype
            &&& feature_signals_spec(req).os_known <==> (d.os@.len() > 0 && !(d.os@.len() == 7
                && forall|k: int| 0 <= k < 7 ==> ascii_lower(#[trigger] d.os@[k]) == "unknown"@[k]))
            &&& feature_signals_spec(req).ifa_present <==> (d.ifa@.len() > 0 && d.ifa@
                != "00000000-0000-0000-0000-000000000000"@)
            &&& feature_signals_spec(req).screen matches Some((w, h)) ==> d.w == Some(w) && d.h
                == Some(h) && w > 0 && h > 0
            &&& feature_signals_spec(req).screen is None <==> !(d.w matches Some(w) && d.h matches Some(h)
                && w > 0 && h > 0)
        },
{
    reveal_strlit("unknown");
    match req.device {
        Some(d) => {
            assert(forall|k: int| 0 <= k < 7 ==> ascii_lower("unknown"@[k]) == "unknown"@[k]);
        },
        None => {},
    }
}

} // verus!
