//! Fraud detection rules.
//!
//! Four detectors look at a bid request: click injection, impression
//! laundering, bot traffic and ad stacking. Each yields its findings in the
//! order in which its heuristics fire: a weight in hundredths of confidence
//! and a human-readable reason. A detector flags the request when the sum of
//! its weights, capped at one, exceeds its threshold (also in hundredths); the
//! click-injection detector also when the sum equals its threshold, and the
//! ad-stacking detector also when a banner is larger than the screen. The
//! request is fraudulent when some detector flags it or when the probabilistic
//! union 1 - ∏(1 - c) of the detectors' confidences exceeds one half.
use std::collections::HashSet;

use vstd::prelude::*;

use crate::bid_stream::{App, BidRequest, Device, Impression};
use crate::text::{
    chars_of, contains, contains_exec, decimal, decimal_string, eq_ignore_ascii_case,
    eq_ignore_ascii_case_exec, is_piece, lemma_without_char_idempotent, lowercase, occurs_at,
    remove_char, some_piece_in, some_piece_in_exec, starts_with, starts_with_exec, to_lowercase,
    without_char,
};

verus! {

broadcast use vstd::std_specs::hash::group_hash_axioms;

/// One heuristic that fired: its weight in hundredths of confidence and why.
#[derive(Debug, Clone)]
pub struct Finding {
    /// Weight in hundredths (25 stands for 0.25).
    pub weight: u32,
    /// Human-readable reason.
    pub reason: String,
}

/// The findings of one detector and when they flag the request: when the
/// capped sum of their weights exceeds the threshold (in hundredths), when it
/// equals the threshold and `flags_at_threshold` holds, or when a finding that
/// flags on its own fired (`decisive`).
#[derive(Debug, Clone)]
pub struct DetectorFindings {
    /// Findings in the order in which the heuristics fired.
    pub findings: Vec<Finding>,
    /// Threshold in hundredths.
    pub threshold: u32,
    /// Whether a confidence equal to the threshold flags the request too.
    pub flags_at_threshold: bool,
    /// Whether a finding fired that flags the request on its own.
    pub decisive: bool,
}

/// A finding as a (weight, reason) pair.
pub open spec fn finding_view(f: Finding) -> (nat, Seq<char>) {
    (f.weight as nat, f.reason@)
}

/// Findings as (weight, reason) pairs.
pub open spec fn findings_view(fs: Seq<Finding>) -> Seq<(nat, Seq<char>)> {
    fs.map_values(|f: Finding| finding_view(f))
}

/// The sum of the weights of findings.
pub open spec fn weight_sum(fs: Seq<(nat, Seq<char>)>) -> nat
    decreases fs.len(),
{
    if fs.len() == 0 {
        0
    } else {
        weight_sum(fs.drop_last()) + fs.last().0
    }
}

/// A confidence in hundredths, capped at one (100).
pub open spec fn capped(n: nat) -> nat {
    if n > 100 {
        100
    } else {
        n
    }
}

impl DetectorFindings {
    /// The detector's confidence in hundredths: the sum of its weights, capped at one.
    pub open spec fn confidence_spec(self) -> nat {
        capped(weight_sum(findings_view(self.findings@)))
    }

    /// The detector flags the request: a decisive finding fired, or its
    /// confidence exceeds its threshold (or equals it, where that flags too).
    pub open spec fn flags_spec(self) -> bool {
        ||| self.decisive
        ||| self.confidence_spec() > self.threshold
        ||| (self.flags_at_threshold && self.confidence_spec() == self.threshold)
    }
}

/// Some detector of `ds` flags the request.
pub open spec fn some_flags(ds: Seq<DetectorFindings>) -> bool
    decreases ds.len(),
{
    ds.len() > 0 && (some_flags(ds.drop_last()) || ds.last().flags_spec())
}

/// The product of `100 - c` over the detectors' confidences `c` (in hundredths).
pub open spec fn doubt_product(ds: Seq<DetectorFindings>) -> nat
    decreases ds.len(),
{
    if ds.len() == 0 {
        1
    } else {
        doubt_product(ds.drop_last()) * ((100 - ds.last().confidence_spec()) as nat)
    }
}

/// 100 to the power `n`.
pub open spec fn hundred_pow(n: nat) -> nat
    decreases n,
{
    if n == 0 {
        1
    } else {
        100 * hundred_pow((n - 1) as nat)
    }
}

/// The probabilistic union 1 - ∏(1 - c/100) of the detectors' confidences
/// exceeds one half; stated without fractions as 2·∏(100 - c) < 100ⁿ.
pub open spec fn union_exceeds_half(ds: Seq<DetectorFindings>) -> bool {
    2 * doubt_product(ds) < hundred_pow(ds.len())
}

/// A request is fraudulent when some detector flags it or the union of the
/// detectors' confidences exceeds one half.
pub open spec fn verdict(ds: Seq<DetectorFindings>) -> bool {
    some_flags(ds) || union_exceeds_half(ds)
}

/// A single finding, or none, depending on `cond`.
pub open spec fn when(cond: bool, weight: nat, reason: Seq<char>) -> Seq<(nat, Seq<char>)> {
    if cond {
        seq![(weight, reason)]
    } else {
        Seq::empty()
    }
}

/// The identifier of an advertising device that has been zeroed out.
pub open spec fn zeroed_ifa() -> Seq<char> {
    "00000000-0000-0000-0000-000000000000"@
}

/// Device dimensions that no real screen has: a zero side, or both sides under 100 pixels.
pub open spec fn impossible_dimensions(w: u32, h: u32) -> bool {
    w == 0 || h == 0 || (w < 100 && h < 100 && (w as int) * (h as int) > 0)
}

/// The click-injection findings for a request.
pub open spec fn click_injection_spec(req: BidRequest) -> Seq<(nat, Seq<char>)> {
    match req.device {
        Some(d) => {
            when(
                d.ifa@.len() == 0 || d.ifa@ == zeroed_ifa(),
                25,
                "Missing or zeroed IFA — possible click injection farm"@,
            ) + when(d.dnt == 1 && d.lmt == 1, 15, "Both DNT and LMT set — evasive device signals"@)
                + match (d.w, d.h) {
                (Some(w), Some(h)) => when(
                    impossible_dimensions(w, h),
                    20,
                    "Suspicious device dimensions ("@ + decimal(w as nat) + "x"@ + decimal(h as nat)
                        + ") — possible emulator"@,
                ),
                _ => Seq::empty(),
            }
        },
        None => seq![(10nat, "Missing device object — incomplete request"@)],
    }
}

/// Some '.'-separated piece of the lower-cased bundle occurs in the lower-cased
/// app name with its spaces removed (an empty piece occurs everywhere).
pub open spec fn bundle_mentions_name_spec(name_lower: Seq<char>, bundle_lower: Seq<char>) -> bool {
    some_piece_in(bundle_lower, '.', without_char(name_lower, ' '))
}

/// The app-related impression-laundering findings.
pub open spec fn app_laundering_spec(a: App) -> Seq<(nat, Seq<char>)> {
    when(
        a.bundle@.len() == 0 && a.name@.len() > 0,
        20,
        "App has name but no bundle — potential domain spoofing"@,
    ) + when(
        a.name@.len() > 0 && a.bundle@.len() > 0 && !bundle_mentions_name_spec(
            lowercase(a.name@),
            lowercase(a.bundle@),
        ) && (vstd::utf8::encode_utf8(a.bundle@).len() as usize) > 5,
        15,
        "App name '"@ + a.name@ + "' doesn't match bundle '"@ + a.bundle@ + "'"@,
    ) + when(a.paid == 1 && a.bundle@.len() > 0, 10, "Paid app serving ads — potentially hijacked"@)
}

/// The impression-laundering findings for a request.
pub open spec fn impression_laundering_spec(req: BidRequest) -> Seq<(nat, Seq<char>)> {
    let from_app = match req.app {
        Some(a) => app_laundering_spec(a),
        None => Seq::empty(),
    };
    from_app + when(
        req.app is Some && req.site is Some,
        35,
        "Both app and site objects present — invalid OpenRTB"@,
    ) + when(
        req.app is None && req.site is None,
        15,
        "Neither app nor site present — unidentified inventory"@,
    )
}

/// The user-agent fragments of headless browsers.
pub open spec fn headless_indicators() -> Seq<Seq<char>> {
    seq!["headless"@, "phantomjs"@, "puppeteer"@, "selenium"@]
}

/// One finding for each of `names` that occurs in `hay`, in the order of `names`,
/// with the reason `prefix` + name + "'".
pub open spec fn name_hits(hay: Seq<char>, names: Seq<Seq<char>>, weight: nat, prefix: Seq<char>) -> Seq<
    (nat, Seq<char>),
>
    decreases names.len(),
{
    if names.len() == 0 {
        Seq::empty()
    } else {
        name_hits(hay, names.drop_last(), weight, prefix) + when(
            contains(hay, names.last()),
            weight,
            prefix + names.last() + "'"@,
        )
    }
}

/// The findings on a lower-cased user agent: known bots, then headless browsers.
pub open spec fn user_agent_spec(bots: Seq<Seq<char>>, ua_lower: Seq<char>) -> Seq<(nat, Seq<char>)> {
    name_hits(ua_lower, bots, 45, "Known bot user-agent detected: '"@) + name_hits(
        ua_lower,
        headless_indicators(),
        35,
        "Headless browser detected: '"@,
    )
}

/// The device findings of the bot-traffic detector that do not look at the user agent.
pub open spec fn device_bot_spec(suspicious: Set<u8>, d: Device) -> Seq<(nat, Seq<char>)> {
    when(
        d.os@.len() == 0 || eq_ignore_ascii_case(d.os@, "unknown"@),
        15,
        "Missing or unknown OS"@,
    ) + match d.devicetype {
        Some(dt) => when(
            suspicious.contains(dt),
            15,
            "Suspicious device type ("@ + decimal(dt as nat) + ") — often spoofed"@,
        ),
        None => Seq::empty(),
    } + match d.geo {
        Some(g) => when(
            g.country@.len() > 0 && d.language@.len() > 0 && g.country@ == "USA"@ && !starts_with(
                d.language@,
                "en"@,
            ),
            10,
            "Geo country '"@ + g.country@ + "' but language '"@ + d.language@
                + "' — possible proxy"@,
        ),
        None => Seq::empty(),
    }
}

/// The bot-traffic findings for a request.
pub open spec fn bot_traffic_spec(bots: Seq<Seq<char>>, suspicious: Set<u8>, req: BidRequest) -> Seq<
    (nat, Seq<char>),
> {
    match req.device {
        Some(d) => user_agent_spec(bots, lowercase(d.ua@)) + device_bot_spec(suspicious, d),
        None => seq![(30nat, "No device object — cannot verify user-agent"@)],
    }
}

/// The area of a `w` by `h` rectangle.
pub open spec fn area(w: u32, h: u32) -> nat {
    (w as nat) * (h as nat)
}

/// The banner size of an impression, when its banner gives both sides.
pub open spec fn banner_size(imp: Impression) -> Option<(u32, u32)> {
    match imp.banner {
        Some(b) => match (b.w, b.h) {
            (Some(w), Some(h)) => Some((w, h)),
            _ => None,
        },
        None => None,
    }
}

/// The total area of the banners that give both sides.
pub open spec fn total_banner_area(imps: Seq<Impression>) -> nat
    decreases imps.len(),
{
    if imps.len() == 0 {
        0
    } else {
        total_banner_area(imps.drop_last()) + match banner_size(imps.last()) {
            Some((w, h)) => area(w, h),
            None => 0,
        }
    }
}

/// The ad-stacking findings for one impression on a `sw` by `sh` screen, given
/// the total banner area and the number of impressions in the request.
pub open spec fn impression_stacking_spec(imp: Impression, total: nat, sw: u32, sh: u32, n_imps: nat) -> Seq<
    (nat, Seq<char>),
> {
    match banner_size(imp) {
        Some((w, h)) => {
            let viewport = area(sw, sh);
            let ad = area(w, h);
            when(
                ad > viewport,
                30,
                "Ad ("@ + decimal(w as nat) + "x"@ + decimal(h as nat) + ") larger than viewport ("@
                    + decimal(sw as nat) + "x"@ + decimal(sh as nat) + ") — potential stacking"@,
            ) + when(
                2 * total > 3 * viewport && n_imps > 1,
                25,
                "Total ad area ("@ + decimal(total) + ") exceeds 150% of viewport ("@ + decimal(
                    viewport,
                ) + ") — stacking likely"@,
            ) + when(
                ad <= 1,
                20,
                "Suspiciously small creative ("@ + decimal(w as nat) + "x"@ + decimal(h as nat)
                    + ") — pixel tracker"@,
            )
        },
        None => Seq::empty(),
    }
}

/// The ad-stacking findings for the impressions `imps`, in order.
pub open spec fn stacking_over(imps: Seq<Impression>, total: nat, sw: u32, sh: u32, n_imps: nat) -> Seq<
    (nat, Seq<char>),
>
    decreases imps.len(),
{
    if imps.len() == 0 {
        Seq::empty()
    } else {
        stacking_over(imps.drop_last(), total, sw, sh, n_imps) + impression_stacking_spec(
            imps.last(),
            total,
            sw,
            sh,
            n_imps,
        )
    }
}

/// Some impression of `imps` has a banner larger than a `sw` by `sh` screen.
pub open spec fn oversized_in(imps: Seq<Impression>, sw: u32, sh: u32) -> bool
    decreases imps.len(),
{
    imps.len() > 0 && (oversized_in(imps.drop_last(), sw, sh) || match banner_size(imps.last()) {
        Some((w, h)) => area(w, h) > area(sw, sh),
        None => false,
    })
}

/// The request comes from a device that gives both screen sides and one of its
/// banners is larger than that screen.
pub open spec fn oversized_banner(req: BidRequest) -> bool {
    match req.device {
        Some(d) => match (d.w, d.h) {
            (Some(sw), Some(sh)) => oversized_in(req.imp@, sw, sh),
            _ => false,
        },
        None => false,
    }
}

/// The ad-stacking findings for a request: only a device with both screen
/// sides is examined.
pub open spec fn ad_stacking_spec(req: BidRequest) -> Seq<(nat, Seq<char>)> {
    match req.device {
        Some(d) => match (d.w, d.h) {
            (Some(sw), Some(sh)) => stacking_over(
                req.imp@,
                total_banner_area(req.imp@),
                sw,
                sh,
                req.imp@.len(),
            ),
            _ => Seq::empty(),
        },
        None => Seq::empty(),
    }
}

/// The user-agent fragments of known crawlers.
pub open spec fn known_bot_list() -> Seq<Seq<char>> {
    seq![
        "googlebot"@,
        "bingbot"@,
        "slurp"@,
        "duckduckbot"@,
        "baiduspider"@,
        "yandexbot"@,
        "facebookexternalhit"@,
        "facebot"@,
        "twitterbot"@,
        "rogerbot"@,
        "linkedinbot"@,
        "embedly"@,
        "quora link preview"@,
        "showyoubot"@,
        "outbrain"@,
        "pinterest"@,
        "slackbot-linkpreview"@,
        "applebot"@,
        "semrushbot"@,
        "ahrefsbot"@,
        "dotbot"@,
        "mj12bot"@,
    ]
}

/// The strings of a sequence, as character sequences.
pub open spec fn strings_view(v: Seq<String>) -> Seq<Seq<char>> {
    v.map_values(|s: String| s@)
}

/// A comprehensive fraud detector combining click-injection, impression-laundering,
/// bot-traffic and ad-stacking heuristics.
pub struct GeneralizedFraudDetector {
    known_bots: Vec<String>,
    suspicious_device_types: HashSet<u8>,
}

/// The outcome of running the four detectors on a request.
#[derive(Debug, Clone)]
pub struct Detection {
    /// The findings of click injection, impression laundering, bot traffic and
    /// ad stacking, in that order.
    pub detectors: Vec<DetectorFindings>,
    /// Whether the union of the detectors' confidences exceeds one half.
    pub confidence_over_half: bool,
    /// Whether the request is fraudulent.
    pub is_fraudulent: bool,
}

/// Appends a finding.
fn push_finding(v: &mut Vec<Finding>, weight: u32, reason: String)
    ensures
        findings_view(final(v)@) == findings_view(old(v)@).push((weight as nat, reason@)),
{
    v.push(Finding { weight, reason });
    assert(findings_view(v@) =~= findings_view(old(v)@).push((weight as nat, reason@)));
}

impl DetectorFindings {
    /// The detector's confidence in hundredths: the sum of its weights, capped at one.
    pub fn confidence(&self) -> (r: u32)
        ensures
            r == self.confidence_spec(),
            r <= 100,
    {
        let ghost fv = findings_view(self.findings@);
        let n = self.findings.len();
        let mut total: u32 = 0;
        let mut i: usize = 0;
        assert(fv.take(0) =~= Seq::<(nat, Seq<char>)>::empty());
        while i < n
            invariant
                i <= n == self.findings@.len() == fv.len(),
                fv == findings_view(self.findings@),
                total == capped(weight_sum(fv.take(i as int))),
            decreases n - i,
        {
            assert(fv.take(i + 1).drop_last() =~= fv.take(i as int));
            let w = self.findings[i].weight;
            if w >= 100 - total {
                total = 100;
            } else {
                total = total + w;
            }
            i = i + 1;
        }
        assert(fv.take(n as int) =~= fv);
        total
    }

    /// Whether the detector flags the request: a decisive finding fired, or its
    /// confidence exceeds its threshold (or equals it, where that flags too).
    pub fn flags(&self) -> (r: bool)
        ensures
            r == self.flags_spec(),
    {
        let c = self.confidence();
        self.decisive || c > self.threshold || (self.flags_at_threshold && c == self.threshold)
    }
}

/// Powers of 100 grow with the exponent.
proof fn lemma_hundred_pow_grows(i: nat, j: nat)
    requires
        i <= j,
    ensures
        hundred_pow(i) <= hundred_pow(j),
    decreases j,
{
    if i < j {
        lemma_hundred_pow_grows(i, (j - 1) as nat);
    }
}

/// The product of the factors `100 - c` is at most 100 to the number of detectors.
proof fn lemma_doubt_within_scale(ds: Seq<DetectorFindings>)
    ensures
        doubt_product(ds) <= hundred_pow(ds.len()),
    decreases ds.len(),
{
    if ds.len() > 0 {
        let p = doubt_product(ds.drop_last());
        let s = hundred_pow((ds.len() - 1) as nat);
        let f = (100 - ds.last().confidence_spec()) as nat;
        lemma_doubt_within_scale(ds.drop_last());
        assert(p * f <= s * 100) by (nonlinear_arith)
            requires
                p <= s,
                f <= 100,
        ;
    }
}

/// The product of the factors `100 - c` is at most the factor of any one
/// detector times 100 to the number of the others.
proof fn lemma_doubt_within_member(ds: Seq<DetectorFindings>, i: int)
    requires
        0 <= i < ds.len(),
    ensures
        doubt_product(ds) <= ((100 - ds[i].confidence_spec()) as nat) * hundred_pow(
            (ds.len() - 1) as nat,
        ),
    decreases ds.len(),
{
    let rest = ds.drop_last();
    let p = doubt_product(rest);
    let f = (100 - ds.last().confidence_spec()) as nat;
    let fi = (100 - ds[i].confidence_spec()) as nat;
    let s = hundred_pow((ds.len() - 1) as nat);
    if i == ds.len() - 1 {
        lemma_doubt_within_scale(rest);
        assert(p * f <= f * s) by (nonlinear_arith)
            requires
                p <= s,
        ;
    } else {
        let s2 = hundred_pow((ds.len() - 2) as nat);
        lemma_doubt_within_member(rest, i);
        assert(rest[i] == ds[i]);
        assert(p * f <= fi * s) by (nonlinear_arith)
            requires
                p <= fi * s2,
                f <= 100,
                s == 100 * s2,
        ;
    }
}

/// The union of the detectors' confidences is at least the confidence of each:
/// when one detector is more than half confident, the union exceeds one half
/// and the request is fraudulent.
pub proof fn lemma_confident_detector_carries_union(ds: Seq<DetectorFindings>, i: int)
    requires
        0 <= i < ds.len(),
        ds[i].confidence_spec() > 50,
    ensures
        union_exceeds_half(ds),
        verdict(ds),
{
    lemma_doubt_within_member(ds, i);
    let fi = (100 - ds[i].confidence_spec()) as nat;
    let s = hundred_pow((ds.len() - 1) as nat);
    lemma_hundred_pow_grows(0, (ds.len() - 1) as nat);
    assert(2 * (fi * s) < 100 * s) by (nonlinear_arith)
        requires
            fi < 50,
            s > 0,
    ;
}

/// Whether some detector flags, and whether the union of their confidences
/// exceeds one half.
fn assess(ds: &Vec<DetectorFindings>) -> (r: (bool, bool))
    requires
        ds@.len() <= 9,
    ensures
        r.0 == some_flags(ds@),
        r.1 == union_exceeds_half(ds@),
{
    let n = ds.len();
    let mut any = false;
    let mut doubt: u64 = 1;
    let mut scale: u64 = 1;
    let mut i: usize = 0;
    proof {
        reveal_with_fuel(hundred_pow, 10);
        assert(hundred_pow(9) == 1_000_000_000_000_000_000);
    }
    assert(ds@.take(0) =~= Seq::<DetectorFindings>::empty());
    while i < n
        invariant
            i <= n == ds@.len() <= 9,
            hundred_pow(9) == 1_000_000_000_000_000_000,
            any == some_flags(ds@.take(i as int)),
            doubt == doubt_product(ds@.take(i as int)),
            scale == hundred_pow(i as nat),
            doubt <= scale,
        decreases n - i,
    {
        assert(ds@.take(i + 1).drop_last() =~= ds@.take(i as int));
        let c = ds[i].confidence();
        let f: u64 = (100 - c) as u64;
        if ds[i].decisive || c > ds[i].threshold || (ds[i].flags_at_threshold && c
            == ds[i].threshold) {
            any = true;
        }
        proof {
            lemma_hundred_pow_grows((i + 1) as nat, 9);
            assert(doubt * f <= scale * 100) by (nonlinear_arith)
                requires
                    doubt <= scale,
                    f <= 100,
            ;
        }
        doubt = doubt * f;
        scale = scale * 100;
        i = i + 1;
    }
    assert(ds@.take(n as int) =~= ds@);
    (any, 2 * doubt < scale)
}

/// Tests for device dimensions that no real screen has.
fn dimensions_impossible(w: u32, h: u32) -> (r: bool)
    ensures
        r == impossible_dimensions(w, h),
{
    if w == 0 || h == 0 {
        true
    } else if w < 100 && h < 100 {
        assert(w * h < 10000) by (nonlinear_arith)
            requires
                w < 100,
                h < 100,
        ;
        w * h > 0
    } else {
        false
    }
}

/// A string holding the characters of a literal.
fn text(s: &str) -> (r: String)
    ensures
        r@ == s@,
{
    String::from_str(s)
}

/// Whether some '.'-separated piece of a lower-cased bundle occurs in a
/// lower-cased app name with its spaces removed.
pub fn bundle_mentions_name(name_lower: &str, bundle_lower: &str) -> (r: bool)
    ensures
        r == bundle_mentions_name_spec(name_lower@, bundle_lower@),
{
    let name = remove_char(&chars_of(name_lower), ' ');
    let bundle = chars_of(bundle_lower);
    some_piece_in_exec(&bundle, '.', &name)
}

/// The area of a `w` by `h` rectangle.
fn area_exec(w: u32, h: u32) -> (r: u64)
    ensures
        r == area(w, h),
        r <= 0xFFFF_FFFE_0000_0001u64,
{
    assert((w as nat) * (h as nat) <= 0xFFFF_FFFF * 0xFFFF_FFFF) by (nonlinear_arith)
        requires
            w <= 0xFFFF_FFFF,
            h <= 0xFFFF_FFFF,
    ;
    (w as u64) * (h as u64)
}

/// The banner size of an impression, when its banner gives both sides.
fn banner_size_exec(imp: &Impression) -> (r: Option<(u32, u32)>)
    ensures
        r == banner_size(*imp),
{
    match &imp.banner {
        Some(b) => match (b.w, b.h) {
            (Some(w), Some(h)) => Some((w, h)),
            _ => None,
        },
        None => None,
    }
}

/// The total area of the banners that give both sides.
fn total_area_exec(imps: &Vec<Impression>) -> (r: u128)
    ensures
        r == total_banner_area(imps@),
{
    let n = imps.len();
    let mut total: u128 = 0;
    let mut i: usize = 0;
    while i < n
        invariant
            i <= n == imps@.len(),
            total == total_banner_area(imps@.take(i as int)),
            total <= (i as int) * 0xFFFF_FFFE_0000_0001,
        decreases n - i,
    {
        assert(imps@.take(i + 1).drop_last() =~= imps@.take(i as int));
        match banner_size_exec(&imps[i]) {
            Some((w, h)) => {
                let a = area_exec(w, h);
                assert(total + a <= (i + 1) * 0xFFFF_FFFE_0000_0001);
                assert((i + 1) * 0xFFFF_FFFE_0000_0001 < 0x1_0000_0000_0000_0000 * 0xFFFF_FFFE_0000_0001);
                total = total + a as u128;
            },
            None => {},
        }
        i = i + 1;
    }
    assert(imps@.take(n as int) =~= imps@);
    total
}

/// For each of `names` that occurs in `hay`, in order, appends a finding with
/// the reason `prefix` + name + "'".
fn push_name_hits(
    v: &mut Vec<Finding>,
    hay: &Vec<char>,
    names: &Vec<String>,
    weight: u32,
    prefix: &str,
)
    ensures
        findings_view(final(v)@) == findings_view(old(v)@) + name_hits(
            hay@,
            strings_view(names@),
            weight as nat,
            prefix@,
        ),
{
    let n = names.len();
    let mut i: usize = 0;
    assert(strings_view(names@).take(0) =~= Seq::<Seq<char>>::empty());
    while i < n
        invariant
            i <= n == names@.len(),
            findings_view(v@) == findings_view(old(v)@) + name_hits(
                hay@,
                strings_view(names@).take(i as int),
                weight as nat,
                prefix@,
            ),
        decreases n - i,
    {
        let ghost before = findings_view(v@);
        let name = chars_of(names[i].as_str());
        assert(strings_view(names@).take(i + 1).drop_last() =~= strings_view(names@).take(
            i as int,
        ));
        assert(strings_view(names@).take(i + 1).last() == names@[i as int]@);
        if contains_exec(hay, &name) {
            let mut reason = text(prefix);
            reason.append(names[i].as_str());
            reason.append("'");
            push_finding(v, weight, reason);
        }
        assert(findings_view(v@) =~= findings_view(old(v)@) + name_hits(
            hay@,
            strings_view(names@).take(i + 1),
            weight as nat,
            prefix@,
        ));
        i = i + 1;
    }
    assert(strings_view(names@).take(n as int) =~= strings_view(names@));
}

/// The lower-cased user-agent fragments of headless browsers.
fn headless_list() -> (r: Vec<String>)
    ensures
        strings_view(r@) == headless_indicators(),
{
    let mut r: Vec<String> = Vec::new();
    r.push(text("headless"));
    r.push(text("phantomjs"));
    r.push(text("puppeteer"));
    r.push(text("selenium"));
    assert(strings_view(r@) =~= headless_indicators());
    r
}

impl GeneralizedFraudDetector {
    /// The known crawler fragments, in the order they are tried.
    pub closed spec fn bot_names(&self) -> Seq<Seq<char>> {
        strings_view(self.known_bots@)
    }

    /// The device types (OpenRTB 5.21) treated as suspicious.
    pub closed spec fn suspicious_types(&self) -> Set<u8> {
        self.suspicious_device_types@
    }

    /// Every detector holds the default crawler list and suspicious device types.
    #[verifier::type_invariant]
    closed spec fn holds_defaults(self) -> bool {
        &&& strings_view(self.known_bots@) == known_bot_list()
        &&& self.suspicious_device_types@ == set![7u8, 6u8]
    }

    /// Creates a detector with the default crawler list and the suspicious
    /// device types Set Top Box (7) and Connected Device (6).
    pub fn new() -> (r: Self)
        ensures
            r.bot_names() == known_bot_list(),
            r.suspicious_types() == set![7u8, 6u8],
    {
        let mut known_bots: Vec<String> = Vec::new();
        known_bots.push(text("googlebot"));
        known_bots.push(text("bingbot"));
        known_bots.push(text("slurp"));
        known_bots.push(text("duckduckbot"));
        known_bots.push(text("baiduspider"));
        known_bots.push(text("yandexbot"));
        known_bots.push(text("facebookexternalhit"));
        known_bots.push(text("facebot"));
        known_bots.push(text("twitterbot"));
        known_bots.push(text("rogerbot"));
        known_bots.push(text("linkedinbot"));
        known_bots.push(text("embedly"));
        known_bots.push(text("quora link preview"));
        known_bots.push(text("showyoubot"));
        known_bots.push(text("outbrain"));
        known_bots.push(text("pinterest"));
        known_bots.push(text("slackbot-linkpreview"));
        known_bots.push(text("applebot"));
        known_bots.push(text("semrushbot"));
        known_bots.push(text("ahrefsbot"));
        known_bots.push(text("dotbot"));
        known_bots.push(text("mj12bot"));
        let mut suspicious_device_types: HashSet<u8> = HashSet::new();
        suspicious_device_types.insert(7);
        suspicious_device_types.insert(6);
        assert(strings_view(known_bots@) =~= known_bot_list());
        assert(suspicious_device_types@ =~= set![7u8, 6u8]);
        GeneralizedFraudDetector { known_bots, suspicious_device_types }
    }

    /// Detects click injection: a missing or zeroed advertising ID, both
    /// do-not-track and limit-ad-tracking set, impossible screen dimensions,
    /// or no device at all.
    pub fn detect_click_injection(&self, request: &BidRequest) -> (r: DetectorFindings)
        ensures
            findings_view(r.findings@) == click_injection_spec(*request),
            r.threshold == 40,
            r.flags_at_threshold,
            !r.decisive,
    {
        let mut v: Vec<Finding> = Vec::new();
        match &request.device {
            Some(d) => {
                let zero = text("00000000-0000-0000-0000-000000000000");
                if d.ifa.as_str().is_empty() || d.ifa == zero {
                    push_finding(&mut v, 25, text("Missing or zeroed IFA — possible click injection farm"));
                }
                if d.dnt == 1 && d.lmt == 1 {
                    push_finding(&mut v, 15, text("Both DNT and LMT set — evasive device signals"));
                }
                match (d.w, d.h) {
                    (Some(w), Some(h)) => {
                        if dimensions_impossible(w, h) {
                            let mut reason = text("Suspicious device dimensions (");
                            reason.append(decimal_string(w as u128).as_str());
                            reason.append("x");
                            reason.append(decimal_string(h as u128).as_str());
                            reason.append(") — possible emulator");
                            push_finding(&mut v, 20, reason);
                        }
                    },
                    _ => {},
                }
            },
            None => {
                push_finding(&mut v, 10, text("Missing device object — incomplete request"));
            },
        }
        assert(findings_view(v@) =~= click_injection_spec(*request));
        DetectorFindings { findings: v, threshold: 40, flags_at_threshold: true, decisive: false }
    }
    /// Detects impression laundering: an app with a name but no bundle, an app
    /// name that no piece of its bundle matches, a paid app serving ads, both app
    /// and site present, or neither.
    pub fn detect_impression_laundering(&self, request: &BidRequest) -> (r: DetectorFindings)
        ensures
            findings_view(r.findings@) == impression_laundering_spec(*request),
            r.threshold == 40,
            !r.flags_at_threshold,
            !r.decisive,
    {
        let mut v: Vec<Finding> = Vec::new();
        match &request.app {
            Some(a) => {
                let no_bundle = a.bundle.as_str().is_empty();
                let no_name = a.name.as_str().is_empty();
                if no_bundle && !no_name {
                    push_finding(&mut v, 20, text("App has name but no bundle — potential domain spoofing"));
                }
                if !no_name && !no_bundle {
                    let name_lower = to_lowercase(a.name.as_str());
                    let bundle_lower = to_lowercase(a.bundle.as_str());
                    let mentions = bundle_mentions_name(name_lower.as_str(), bundle_lower.as_str());
                    if !mentions && a.bundle.as_str().len() > 5 {
                        let mut reason = text("App name '");
                        reason.append(a.name.as_str());
                        reason.append("' doesn't match bundle '");
                        reason.append(a.bundle.as_str());
                        reason.append("'");
                        push_finding(&mut v, 15, reason);
                    }
                }
                if a.paid == 1 && !no_bundle {
                    push_finding(&mut v, 10, text("Paid app serving ads — potentially hijacked"));
                }
                assert(findings_view(v@) =~= app_laundering_spec(*a));
            },
            None => {},
        }
        if request.app.is_some() && request.site.is_some() {
            push_finding(&mut v, 35, text("Both app and site objects present — invalid OpenRTB"));
        }
        if request.app.is_none() && request.site.is_none() {
            push_finding(&mut v, 15, text("Neither app nor site present — unidentified inventory"));
        }
        assert(findings_view(v@) =~= impression_laundering_spec(*request));
        DetectorFindings { findings: v, threshold: 40, flags_at_threshold: false, decisive: false }
    }

    /// The findings on a lower-cased user agent: one for each known crawler
    /// fragment it holds, then one for each headless-browser fragment.
    pub fn user_agent_findings(&self, ua_lower: &str) -> (r: Vec<Finding>)
        ensures
            findings_view(r@) == user_agent_spec(self.bot_names(), ua_lower@),
    {
        let hay = chars_of(ua_lower);
        let mut v: Vec<Finding> = Vec::new();
        push_name_hits(&mut v, &hay, &self.known_bots, 45, "Known bot user-agent detected: '");
        let headless = headless_list();
        push_name_hits(&mut v, &hay, &headless, 35, "Headless browser detected: '");
        assert(findings_view(v@) =~= user_agent_spec(self.bot_names(), ua_lower@));
        v
    }

    /// Detects bot traffic: crawler or headless-browser user agents, a missing
    /// or unknown OS, a suspicious device type, a US location with a non-English
    /// language, or no device at all.
    pub fn detect_bot_traffic(&self, request: &BidRequest) -> (r: DetectorFindings)
        ensures
            findings_view(r.findings@) == bot_traffic_spec(
                self.bot_names(),
                self.suspicious_types(),
                *request,
            ),
            r.threshold == 50,
            !r.flags_at_threshold,
            !r.decisive,
    {
        match &request.device {
            Some(d) => {
                let ua_lower = to_lowercase(d.ua.as_str());
                let mut v = self.user_agent_findings(ua_lower.as_str());
                let ghost ua_part = findings_view(v@);
                let os = chars_of(d.os.as_str());
                let unknown = chars_of("unknown");
                if os.len() == 0 || eq_ignore_ascii_case_exec(&os, &unknown) {
                    push_finding(&mut v, 15, text("Missing or unknown OS"));
                }
                match d.devicetype {
                    Some(dt) => {
                        if self.suspicious_device_types.contains(&dt) {
                            let mut reason = text("Suspicious device type (");
                            reason.append(decimal_string(dt as u128).as_str());
                            reason.append(") — often spoofed");
                            push_finding(&mut v, 15, reason);
                        }
                    },
                    None => {},
                }
                match &d.geo {
                    Some(g) => {
                        if !g.country.as_str().is_empty() && !d.language.as_str().is_empty() {
                            let usa = text("USA");
                            let lang = chars_of(d.language.as_str());
                            let en = chars_of("en");
                            if g.country == usa && !starts_with_exec(&lang, &en) {
                                let mut reason = text("Geo country '");
                                reason.append(g.country.as_str());
                                reason.append("' but language '");
                                reason.append(d.language.as_str());
                                reason.append("' — possible proxy");
                                push_finding(&mut v, 10, reason);
                            }
                        }
                    },
                    None => {},
                }
                assert(findings_view(v@) =~= ua_part + device_bot_spec(self.suspicious_types(), *d));
                DetectorFindings { findings: v, threshold: 50, flags_at_threshold: false, decisive: false }
            },
            None => {
                let mut v: Vec<Finding> = Vec::new();
                push_finding(&mut v, 30, text("No device object — cannot verify user-agent"));
                assert(findings_view(v@) =~= bot_traffic_spec(
                    self.bot_names(),
                    self.suspicious_types(),
                    *request,
                ));
                DetectorFindings { findings: v, threshold: 50, flags_at_threshold: false, decisive: false }
            },
        }
    }
    /// Detects ad stacking on a device that gives both screen sides: for each
    /// impression whose banner gives both sides, a banner larger than the screen,
    /// banners whose total area exceeds 150% of the screen (with several
    /// impressions), and one-pixel trackers. A banner larger than the screen
    /// flags the request on its own.
    pub fn detect_ad_stacking(&self, request: &BidRequest) -> (r: DetectorFindings)
        ensures
            findings_view(r.findings@) == ad_stacking_spec(*request),
            r.threshold == 40,
            !r.flags_at_threshold,
            r.decisive == oversized_banner(*request),
    {
        let mut v: Vec<Finding> = Vec::new();
        let mut oversized = false;
        match &request.device {
            Some(d) => match (d.w, d.h) {
                (Some(sw), Some(sh)) => {
                    let viewport = area_exec(sw, sh);
                    let total = total_area_exec(&request.imp);
                    let n = request.imp.len();
                    let mut i: usize = 0;
                    assert(request.imp@.take(0) =~= Seq::<Impression>::empty());
                    while i < n
                        invariant
                            i <= n == request.imp@.len(),
                            viewport == area(sw, sh),
                            total == total_banner_area(request.imp@),
                            findings_view(v@) == stacking_over(
                                request.imp@.take(i as int),
                                total as nat,
                                sw,
                                sh,
                                n as nat,
                            ),
                            oversized == oversized_in(request.imp@.take(i as int), sw, sh),
                        decreases n - i,
                    {
                        assert(request.imp@.take(i + 1).drop_last() =~= request.imp@.take(i as int));
                        let ghost before = findings_view(v@);
                        match banner_size_exec(&request.imp[i]) {
                            Some((w, h)) => {
                                let ad = area_exec(w, h);
                                if ad > viewport {
                                    oversized = true;
                                    let mut reason = text("Ad (");
                                    reason.append(decimal_string(w as u128).as_str());
                                    reason.append("x");
                                    reason.append(decimal_string(h as u128).as_str());
                                    reason.append(") larger than viewport (");
                                    reason.append(decimal_string(sw as u128).as_str());
                                    reason.append("x");
                                    reason.append(decimal_string(sh as u128).as_str());
                                    reason.append(") — potential stacking");
                                    push_finding(&mut v, 30, reason);
                                }
                                let three_halves: u128 = (3 * (viewport as u128)) / 2;
                                assert((2 * total > 3 * viewport) <==> (total > three_halves));
                                if total > three_halves && n > 1 {
                                    let mut reason = text("Total ad area (");
                                    reason.append(decimal_string(total).as_str());
                                    reason.append(") exceeds 150% of viewport (");
                                    reason.append(decimal_string(viewport as u128).as_str());
                                    reason.append(") — stacking likely");
                                    push_finding(&mut v, 25, reason);
                                }
                                if ad <= 1 {
                                    let mut reason = text("Suspiciously small creative (");
                                    reason.append(decimal_string(w as u128).as_str());
                                    reason.append("x");
                                    reason.append(decimal_string(h as u128).as_str());
                                    reason.append(") — pixel tracker");
                                    push_finding(&mut v, 20, reason);
                                }
                            },
                            None => {},
                        }
                        assert(findings_view(v@) =~= before + impression_stacking_spec(
                            request.imp@[i as int],
                            total as nat,
                            sw,
                            sh,
                            n as nat,
                        ));
                        i = i + 1;
                    }
                    assert(request.imp@.take(n as int) =~= request.imp@);
                },
                _ => {},
            },
            None => {},
        }
        DetectorFindings { findings: v, threshold: 40, flags_at_threshold: false, decisive: oversized }
    }

    /// Runs the four detectors, in the order click injection, impression
    /// laundering, bot traffic, ad stacking. The request is fraudulent when
    /// some detector flags it or the union of their confidences exceeds one half.
    pub fn detect(&self, request: &BidRequest) -> (r: Detection)
        ensures
            r.detectors@.len() == 4,
            findings_view(r.detectors@[0].findings@) == click_injection_spec(*request),
            r.detectors@[0].threshold == 40,
            r.detectors@[0].flags_at_threshold,
            !r.detectors@[0].decisive,
            findings_view(r.detectors@[1].findings@) == impression_laundering_spec(*request),
            r.detectors@[1].threshold == 40,
            !r.detectors@[1].flags_at_threshold,
            !r.detectors@[1].decisive,
            findings_view(r.detectors@[2].findings@) == bot_traffic_spec(
                self.bot_names(),
                self.suspicious_types(),
                *request,
            ),
            r.detectors@[2].threshold == 50,
            !r.detectors@[2].flags_at_threshold,
            !r.detectors@[2].decisive,
            findings_view(r.detectors@[3].findings@) == ad_stacking_spec(*request),
            r.detectors@[3].threshold == 40,
            !r.detectors@[3].flags_at_threshold,
            r.detectors@[3].decisive == oversized_banner(*request),
            r.confidence_over_half == union_exceeds_half(r.detectors@),
            r.is_fraudulent == verdict(r.detectors@),
    {
        let mut detectors: Vec<DetectorFindings> = Vec::new();
        detectors.push(self.detect_click_injection(request));
        detectors.push(self.detect_impression_laundering(request));
        detectors.push(self.detect_bot_traffic(request));
        detectors.push(self.detect_ad_stacking(request));
        let (any, over_half) = assess(&detectors);
        Detection { detectors, confidence_over_half: over_half, is_fraudulent: any || over_half }
    }
}

impl Clone for GeneralizedFraudDetector {
    /// Every detector holds the default lists, so a fresh one is a copy.
    fn clone(&self) -> (r: Self)
        ensures
            r.bot_names() == self.bot_names(),
            r.suspicious_types() == self.suspicious_types(),
    {
        proof {
            use_type_invariant(self);
        }
        Self::new()
    }
}

impl Default for GeneralizedFraudDetector {
    fn default() -> (r: Self)
        ensures
            r.bot_names() == known_bot_list(),
            r.suspicious_types() == set![7u8, 6u8],
    {
        Self::new()
    }
}

/// The reasons of several scores laid end to end, as an aggregate score gives them.
pub fn merge_reasons(groups: &Vec<Vec<String>>) -> (r: Vec<String>)
    ensures
        strings_view(r@) == crate::bid_stream::concat_batches(
            groups@.map_values(|g: Vec<String>| strings_view(g@)),
        ),
{
    let ghost gv = groups@.map_values(|g: Vec<String>| strings_view(g@));
    let mut r: Vec<String> = Vec::new();
    let n = groups.len();
    let mut i: usize = 0;
    assert(gv.take(0) =~= Seq::<Seq<Seq<char>>>::empty());
    while i < n
        invariant
            i <= n == groups@.len() == gv.len(),
            gv == groups@.map_values(|g: Vec<String>| strings_view(g@)),
            strings_view(r@) == crate::bid_stream::concat_batches(gv.take(i as int)),
        decreases n - i,
    {
        let g = &groups[i];
        let ghost before = strings_view(r@);
        let m = g.len();
        let mut k: usize = 0;
        while k < m
            invariant
                k <= m == g@.len(),
                strings_view(r@) == before + strings_view(g@).take(k as int),
            decreases m - k,
        {
            let ghost b2 = strings_view(r@);
            r.push(g[k].clone());
            assert(strings_view(r@) =~= b2.push(g@[k as int]@));
            assert(strings_view(g@).take(k + 1) =~= strings_view(g@).take(k as int).push(g@[k as int]@));
            k = k + 1;
        }
        assert(strings_view(g@).take(m as int) =~= strings_view(g@));
        assert(gv.take(i + 1).drop_last() =~= gv.take(i as int));
        assert(gv[i as int] == strings_view(g@));
        i = i + 1;
    }
    assert(gv.take(n as int) =~= gv);
    r
}

/// Some finding of `fs` has weight `w`.
pub open spec fn has_weight(fs: Seq<(nat, Seq<char>)>, w: nat) -> bool {
    exists|k: int| 0 <= k < fs.len() && #[trigger] fs[k].0 == w
}

/// A weight occurs in findings laid end to end exactly when it occurs in one part.
proof fn lemma_has_weight_concat(a: Seq<(nat, Seq<char>)>, b: Seq<(nat, Seq<char>)>, w: nat)
    ensures
        has_weight(a + b, w) <==> has_weight(a, w) || has_weight(b, w),
{
    if has_weight(a, w) {
        let k = choose|k: int| 0 <= k < a.len() && #[trigger] a[k].0 == w;
        assert((a + b)[k] == a[k]);
    }
    if has_weight(b, w) {
        let k = choose|k: int| 0 <= k < b.len() && #[trigger] b[k].0 == w;
        assert((a + b)[a.len() + k] == b[k]);
    }
    if has_weight(a + b, w) {
        let k = choose|k: int| 0 <= k < (a + b).len() && #[trigger] (a + b)[k].0 == w;
        if k < a.len() {
            assert(a[k] == (a + b)[k]);
        } else {
            assert(b[k - a.len()] == (a + b)[k]);
        }
    }
}

/// A finding that fires on a condition carries its weight exactly when the condition holds.
proof fn lemma_has_weight_when(c: bool, w0: nat, r: Seq<char>, w: nat)
    ensures
        has_weight(when(c, w0, r), w) <==> c && w0 == w,
{
    let s = when(c, w0, r);
    if c {
        assert(s.len() == 1 && s[0] == (w0, r));
    } else {
        assert(s.len() == 0);
    }
    if has_weight(s, w) {
        let k = choose|k: int| 0 <= k < s.len() && #[trigger] s[k].0 == w;
        assert(k == 0);
    }
    if c && w0 == w {
        assert(s[0].0 == w);
    }
}

/// One finding carries its own weight and no other.
proof fn lemma_has_weight_single(w0: nat, r: Seq<char>, w: nat)
    ensures
        has_weight(seq![(w0, r)], w) <==> w0 == w,
{
    let s = seq![(w0, r)];
    assert(s.len() == 1 && s[0] == (w0, r));
    if has_weight(s, w) {
        let k = choose|k: int| 0 <= k < s.len() && #[trigger] s[k].0 == w;
        assert(k == 0);
    }
    if w0 == w {
        assert(s[0].0 == w);
    }
}

/// Name hits all carry the weight they were given.
proof fn lemma_name_hits_weight(hay: Seq<char>, names: Seq<Seq<char>>, w0: nat, prefix: Seq<char>, w: nat)
    requires
        w != w0,
    ensures
        !has_weight(name_hits(hay, names, w0, prefix), w),
    decreases names.len(),
{
    if names.len() > 0 {
        lemma_name_hits_weight(hay, names.drop_last(), w0, prefix, w);
        lemma_has_weight_concat(
            name_hits(hay, names.drop_last(), w0, prefix),
            when(contains(hay, names.last()), w0, prefix + names.last() + "'"@),
            w,
        );
        lemma_has_weight_when(contains(hay, names.last()), w0, prefix + names.last() + "'"@, w);
    }
}

/// The text starts with "en", told character by character.
proof fn lemma_starts_with_en(l: Seq<char>)
    ensures
        starts_with(l, "en"@) <==> (l.len() >= 2 && l[0] == 'e' && l[1] == 'n'),
{
    reveal_strlit("en");
    if l.len() >= 2 && l[0] == 'e' && l[1] == 'n' {
        assert(l.subrange(0, 2) =~= "en"@);
    }
    if starts_with(l, "en"@) {
        assert(l.subrange(0, 2)[0] == l[0]);
        assert(l.subrange(0, 2)[1] == l[1]);
    }
}

/// The click-injection heuristics, each by its weight: a missing or zeroed
/// advertising ID (25); both do-not-track and limit-ad-tracking set (15), never
/// one alone; a screen side of zero, or both sides under 100 pixels (20); no
/// device at all (10).
pub proof fn lemma_click_injection_heuristics(req: BidRequest)
    ensures
        has_weight(click_injection_spec(req), 25) <==> (req.device matches Some(d) && (d.ifa@.len()
            == 0 || d.ifa@ == "00000000-0000-0000-0000-000000000000"@)),
        has_weight(click_injection_spec(req), 15) <==> (req.device matches Some(d) && d.dnt == 1
            && d.lmt == 1),
        has_weight(click_injection_spec(req), 20) <==> (req.device matches Some(d) && d.w matches Some(
            w,
        ) && d.h matches Some(h) && (w == 0 || h == 0 || (w < 100 && h < 100))),
        has_weight(click_injection_spec(req), 10) <==> req.device is None,
{
    match req.device {
        Some(d) => {
            let a = when(
                d.ifa@.len() == 0 || d.ifa@ == zeroed_ifa(),
                25,
                "Missing or zeroed IFA — possible click injection farm"@,
            );
            let b = when(d.dnt == 1 && d.lmt == 1, 15, "Both DNT and LMT set — evasive device signals"@);
            let c = match (d.w, d.h) {
                (Some(w), Some(h)) => when(
                    impossible_dimensions(w, h),
                    20,
                    "Suspicious device dimensions ("@ + decimal(w as nat) + "x"@ + decimal(h as nat)
                        + ") — possible emulator"@,
                ),
                _ => Seq::empty(),
            };
            assert(click_injection_spec(req) == a + b + c);
            match (d.w, d.h) {
                (Some(w), Some(h)) => {
                    if w < 100 && h < 100 && w > 0 && h > 0 {
                        assert((w as int) * (h as int) > 0) by (nonlinear_arith)
                            requires
                                w > 0,
                                h > 0,
                        ;
                    }
                },
                _ => {},
            }
            assert forall|x: nat| #[trigger] has_weight(click_injection_spec(req), x) <==> (
            has_weight(a, x) || has_weight(b, x) || has_weight(c, x)) by {
                lemma_has_weight_concat(a + b, c, x);
                lemma_has_weight_concat(a, b, x);
            }
            assert forall|x: nat| #[trigger] has_weight(a, x) <==> ((d.ifa@.len() == 0 || d.ifa@
                == zeroed_ifa()) && x == 25) by {
                lemma_has_weight_when(
                    d.ifa@.len() == 0 || d.ifa@ == zeroed_ifa(),
                    25,
                    "Missing or zeroed IFA — possible click injection farm"@,
                    x,
                );
            }
            assert forall|x: nat| #[trigger] has_weight(b, x) <==> (d.dnt == 1 && d.lmt == 1 && x
                == 15) by {
                lemma_has_weight_when(
                    d.dnt == 1 && d.lmt == 1,
                    15,
                    "Both DNT and LMT set — evasive device signals"@,
                    x,
                );
            }
            assert forall|x: nat| #[trigger] has_weight(c, x) <==> (d.w matches Some(w) && d.h matches Some(
                h,
            ) && impossible_dimensions(w, h) && x == 20) by {
                match (d.w, d.h) {
                    (Some(w), Some(h)) => {
                        lemma_has_weight_when(
                            impossible_dimensions(w, h),
                            20,
                            "Suspicious device dimensions ("@ + decimal(w as nat) + "x"@ + decimal(
                                h as nat,
                            ) + ") — possible emulator"@,
                            x,
                        );
                    },
                    _ => {},
                }
            }
        },
        None => {
            assert forall|x: nat| #[trigger] has_weight(click_injection_spec(req), x) <==> x == 10 by {
                lemma_has_weight_single(10, "Missing device object — incomplete request"@, x);
            }
        },
    }
}

/// Spaces in the app name never matter: the name mentions the bundle exactly
/// when the name with its spaces removed does.
pub proof fn lemma_spaces_in_name_do_not_matter(name: Seq<char>, bundle: Seq<char>)
    ensures
        bundle_mentions_name_spec(name, bundle) == bundle_mentions_name_spec(
            without_char(name, ' '),
            bundle,
        ),
{
    lemma_without_char_idempotent(name, ' ');
}

/// A bundle whose last '.'-separated piece is the app name with its spaces
/// removed mentions the name (as "com.king.candycrush" does "candy crush").
pub proof fn lemma_bundle_ending_in_name_mentions_it(name: Seq<char>, head: Seq<char>)
    requires
        forall|k: int| 0 <= k < without_char(name, ' ').len() ==> #[trigger] without_char(name, ' ')[k]
            != '.',
    ensures
        bundle_mentions_name_spec(name, head + seq!['.'] + without_char(name, ' ')),
{
    let t = without_char(name, ' ');
    let b = head + seq!['.'] + t;
    let a = (head.len() + 1) as int;
    let e = b.len() as int;
    assert(b[a - 1] == '.');
    assert forall|k: int| a <= k < e implies b[k] != '.' by {
        assert(b[k] == t[k - a]);
    }
    assert(is_piece(b, '.', a, e));
    assert(b.subrange(a, e) =~= t);
    assert(t.subrange(0, t.len() as int) =~= t);
    assert(occurs_at(t, b.subrange(a, e), 0));
    assert(contains(t, b.subrange(a, e)));
}

/// A bundle ending in '.' has an empty last piece, which occurs in every name:
/// such a bundle mentions every name.
pub proof fn lemma_bundle_with_empty_piece_mentions_every_name(name: Seq<char>, bundle: Seq<char>)
    requires
        bundle.len() > 0,
        bundle.last() == '.',
    ensures
        bundle_mentions_name_spec(name, bundle),
{
    let t = without_char(name, ' ');
    let e = bundle.len() as int;
    assert(is_piece(bundle, '.', e, e));
    assert(bundle.subrange(e, e) =~= Seq::<char>::empty());
    assert(t.subrange(0, 0) =~= Seq::<char>::empty());
    assert(occurs_at(t, bundle.subrange(e, e), 0));
    assert(contains(t, bundle.subrange(e, e)));
}

/// The impression-laundering heuristics, each by its weight: an app with a
/// name but no bundle (20); a paid app with a bundle (10); both an app and a
/// site (35); and (15) either neither an app nor a site, or an app whose name
/// and bundle are both given, no '.'-piece of whose lower-cased bundle occurs in
/// its lower-cased space-free name, and whose bundle is longer than 5 bytes.
pub proof fn lemma_impression_laundering_heuristics(req: BidRequest)
    ensures
        has_weight(impression_laundering_spec(req), 20) <==> (req.app matches Some(a)
            && a.bundle@.len() == 0 && a.name@.len() > 0),
        has_weight(impression_laundering_spec(req), 10) <==> (req.app matches Some(a) && a.paid == 1
            && a.bundle@.len() > 0),
        has_weight(impression_laundering_spec(req), 35) <==> (req.app is Some && req.site is Some),
        has_weight(impression_laundering_spec(req), 15) <==> ((req.app is None && req.site is None)
            || (req.app matches Some(a) && a.name@.len() > 0 && a.bundle@.len() > 0
            && !bundle_mentions_name_spec(lowercase(a.name@), lowercase(a.bundle@)) && (
        vstd::utf8::encode_utf8(a.bundle@).len() as usize) > 5)),
{
    lemma_laundering_weight(req, 20);
    lemma_laundering_weight(req, 10);
    lemma_laundering_weight(req, 35);
    lemma_laundering_weight(req, 15);
}

/// Whether the impression-laundering findings carry weight `x`, heuristic by heuristic.
proof fn lemma_laundering_weight(req: BidRequest, x: nat)
    ensures
        has_weight(impression_laundering_spec(req), x) <==> ((match req.app {
            Some(a) => (a.bundle@.len() == 0 && a.name@.len() > 0 && x == 20) || (a.name@.len() > 0
                && a.bundle@.len() > 0 && !bundle_mentions_name_spec(
                lowercase(a.name@),
                lowercase(a.bundle@),
            ) && (vstd::utf8::encode_utf8(a.bundle@).len() as usize) > 5 && x == 15) || (a.paid == 1
                && a.bundle@.len() > 0 && x == 10),
            None => false,
        }) || (req.app is Some && req.site is Some && x == 35) || (req.app is None && req.site is None
            && x == 15)),
{
    let from_app = match req.app {
        Some(a) => app_laundering_spec(a),
        None => Seq::empty(),
    };
    let both = when(
        req.app is Some && req.site is Some,
        35,
        "Both app and site objects present — invalid OpenRTB"@,
    );
    let neither = when(
        req.app is None && req.site is None,
        15,
        "Neither app nor site present — unidentified inventory"@,
    );
    assert(impression_laundering_spec(req) == from_app + both + neither);
    lemma_has_weight_concat(from_app + both, neither, x);
    lemma_has_weight_concat(from_app, both, x);
    lemma_has_weight_when(
        req.app is Some && req.site is Some,
        35,
        "Both app and site objects present — invalid OpenRTB"@,
        x,
    );
    lemma_has_weight_when(
        req.app is None && req.site is None,
        15,
        "Neither app nor site present — unidentified inventory"@,
        x,
    );
    match req.app {
        Some(a) => {
            let c1 = a.bundle@.len() == 0 && a.name@.len() > 0;
            let c2 = a.name@.len() > 0 && a.bundle@.len() > 0 && !bundle_mentions_name_spec(
                lowercase(a.name@),
                lowercase(a.bundle@),
            ) && (vstd::utf8::encode_utf8(a.bundle@).len() as usize) > 5;
            let c3 = a.paid == 1 && a.bundle@.len() > 0;
            let r2 = "App name '"@ + a.name@ + "' doesn't match bundle '"@ + a.bundle@ + "'"@;
            let p1 = when(c1, 20, "App has name but no bundle — potential domain spoofing"@);
            let p2 = when(c2, 15, r2);
            let p3 = when(c3, 10, "Paid app serving ads — potentially hijacked"@);
            assert(from_app == p1 + p2 + p3);
            lemma_has_weight_concat(p1 + p2, p3, x);
            lemma_has_weight_concat(p1, p2, x);
            lemma_has_weight_when(c1, 20, "App has name but no bundle — potential domain spoofing"@, x);
            lemma_has_weight_when(c2, 15, r2, x);
            lemma_has_weight_when(c3, 10, "Paid app serving ads — potentially hijacked"@, x);
        },
        None => {
            assert(!has_weight(from_app, x));
        },
    }
}

/// Name hits carry their weight exactly when one of the names occurs in the text.
proof fn lemma_name_hits_found(hay: Seq<char>, names: Seq<Seq<char>>, w0: nat, prefix: Seq<char>)
    ensures
        has_weight(name_hits(hay, names, w0, prefix), w0) <==> exists|i: int|
            0 <= i < names.len() && contains(hay, #[trigger] names[i]),
    decreases names.len(),
{
    if names.len() > 0 {
        let prev = names.drop_last();
        let last = names.last();
        lemma_name_hits_found(hay, prev, w0, prefix);
        lemma_has_weight_concat(
            name_hits(hay, prev, w0, prefix),
            when(contains(hay, last), w0, prefix + last + "'"@),
            w0,
        );
        lemma_has_weight_when(contains(hay, last), w0, prefix + last + "'"@, w0);
        if exists|i: int| 0 <= i < prev.len() && contains(hay, #[trigger] prev[i]) {
            let i = choose|i: int| 0 <= i < prev.len() && contains(hay, #[trigger] prev[i]);
            assert(names[i] == prev[i]);
        }
        if contains(hay, last) {
            assert(names[names.len() - 1] == last);
        }
        if exists|i: int| 0 <= i < names.len() && contains(hay, #[trigger] names[i]) {
            let i = choose|i: int| 0 <= i < names.len() && contains(hay, #[trigger] names[i]);
            if i < names.len() - 1 {
                assert(prev[i] == names[i]);
            }
        }
    }
}

/// The bot-traffic heuristics, each by its weight: a crawler name in the
/// lower-cased user agent (45); a headless-browser name in it (35); a missing
/// or "unknown" OS, or a suspicious device type (15); a device located in
/// "USA" whose language is given and does not begin with "en" (10); no device
/// at all (30).
pub proof fn lemma_bot_traffic_heuristics(bots: Seq<Seq<char>>, suspicious: Set<u8>, req: BidRequest)
    ensures
        has_weight(bot_traffic_spec(bots, suspicious, req), 45) <==> (req.device matches Some(d)
            && exists|i: int| 0 <= i < bots.len() && contains(lowercase(d.ua@), #[trigger] bots[i])),
        has_weight(bot_traffic_spec(bots, suspicious, req), 35) <==> (req.device matches Some(d)
            && exists|i: int|
            0 <= i < headless_indicators().len() && contains(
                lowercase(d.ua@),
                #[trigger] headless_indicators()[i],
            )),
        has_weight(bot_traffic_spec(bots, suspicious, req), 15) <==> (req.device matches Some(d)
            && (d.os@.len() == 0 || eq_ignore_ascii_case(d.os@, "unknown"@) || (d.devicetype matches Some(
            dt,
        ) && suspicious.contains(dt)))),
        has_weight(bot_traffic_spec(bots, suspicious, req), 10) <==> (req.device matches Some(d)
            && d.geo matches Some(g) && g.country@ == "USA"@ && d.language@.len() > 0 && !(
        d.language@.len() >= 2 && d.language@[0] == 'e' && d.language@[1] == 'n')),
        has_weight(bot_traffic_spec(bots, suspicious, req), 30) <==> req.device is None,
{
    match req.device {
        Some(d) => {
            let ua = lowercase(d.ua@);
            let h1 = name_hits(ua, bots, 45, "Known bot user-agent detected: '"@);
            let h2 = name_hits(ua, headless_indicators(), 35, "Headless browser detected: '"@);
            let os_cond = d.os@.len() == 0 || eq_ignore_ascii_case(d.os@, "unknown"@);
            let q1 = when(os_cond, 15, "Missing or unknown OS"@);
            let q2 = match d.devicetype {
                Some(dt) => when(
                    suspicious.contains(dt),
                    15,
                    "Suspicious device type ("@ + decimal(dt as nat) + ") — often spoofed"@,
                ),
                None => Seq::empty(),
            };
            let q3 = match d.geo {
                Some(g) => when(
                    g.country@.len() > 0 && d.language@.len() > 0 && g.country@ == "USA"@
                        && !starts_with(d.language@, "en"@),
                    10,
                    "Geo country '"@ + g.country@ + "' but language '"@ + d.language@
                        + "' — possible proxy"@,
                ),
                None => Seq::empty(),
            };
            assert(bot_traffic_spec(bots, suspicious, req) == h1 + h2 + (q1 + q2 + q3));
            lemma_starts_with_en(d.language@);
            reveal_strlit("USA");
            lemma_name_hits_found(ua, bots, 45, "Known bot user-agent detected: '"@);
            lemma_name_hits_found(ua, headless_indicators(), 35, "Headless browser detected: '"@);
            assert forall|x: nat| #[trigger] has_weight(bot_traffic_spec(bots, suspicious, req), x)
                <==> (has_weight(h1, x) || has_weight(h2, x) || has_weight(q1, x) || has_weight(q2, x)
                || has_weight(q3, x)) by {
                lemma_has_weight_concat(h1 + h2, q1 + q2 + q3, x);
                lemma_has_weight_concat(h1, h2, x);
                lemma_has_weight_concat(q1 + q2, q3, x);
                lemma_has_weight_concat(q1, q2, x);
            }
            assert forall|x: nat| x != 45 implies !#[trigger] has_weight(h1, x) by {
                lemma_name_hits_weight(ua, bots, 45, "Known bot user-agent detected: '"@, x);
            }
            assert forall|x: nat| x != 35 implies !#[trigger] has_weight(h2, x) by {
                lemma_name_hits_weight(ua, headless_indicators(), 35, "Headless browser detected: '"@, x);
            }
            assert forall|x: nat| #[trigger] has_weight(q1, x) <==> (os_cond && x == 15) by {
                lemma_has_weight_when(os_cond, 15, "Missing or unknown OS"@, x);
            }
            assert forall|x: nat| #[trigger] has_weight(q2, x) <==> (d.devicetype matches Some(dt)
                && suspicious.contains(dt) && x == 15) by {
                match d.devicetype {
                    Some(dt) => {
                        lemma_has_weight_when(
                            suspicious.contains(dt),
                            15,
                            "Suspicious device type ("@ + decimal(dt as nat) + ") — often spoofed"@,
                            x,
                        );
                    },
                    None => {},
                }
            }
            assert forall|x: nat| #[trigger] has_weight(q3, x) <==> (d.geo matches Some(g)
                && g.country@ == "USA"@ && d.language@.len() > 0 && !starts_with(d.language@, "en"@)
                && x == 10) by {
                match d.geo {
                    Some(g) => {
                        lemma_has_weight_when(
                            g.country@.len() > 0 && d.language@.len() > 0 && g.country@ == "USA"@
                                && !starts_with(d.language@, "en"@),
                            10,
                            "Geo country '"@ + g.country@ + "' but language '"@ + d.language@
                                + "' — possible proxy"@,
                            x,
                        );
                    },
                    None => {},
                }
            }
        },
        None => {
            assert forall|x: nat| #[trigger] has_weight(bot_traffic_spec(bots, suspicious, req), x)
                <==> x == 30 by {
                lemma_has_weight_single(30, "No device object — cannot verify user-agent"@, x);
            }
        },
    }
}

/// The impression's banner gives both sides and covers more than `sw` by `sh` pixels.
pub open spec fn banner_exceeds(imp: Impression, sw: u32, sh: u32) -> bool {
    match imp.banner {
        Some(b) => match (b.w, b.h) {
            (Some(w), Some(h)) => (w as int) * (h as int) > (sw as int) * (sh as int),
            _ => false,
        },
        None => false,
    }
}

/// The impression's banner gives both sides and covers at most one pixel.
pub open spec fn banner_at_most_one_pixel(imp: Impression) -> bool {
    match imp.banner {
        Some(b) => match (b.w, b.h) {
            (Some(w), Some(h)) => (w as int) * (h as int) <= 1,
            _ => false,
        },
        None => false,
    }
}

/// The impression's banner gives both sides.
pub open spec fn banner_has_sides(imp: Impression) -> bool {
    imp.banner matches Some(b) && b.w is Some && b.h is Some
}

/// The stacking findings of several impressions carry a weight exactly when
/// those of one of them do.
proof fn lemma_stacking_over_weight(imps: Seq<Impression>, total: nat, sw: u32, sh: u32, n: nat, x: nat)
    ensures
        has_weight(stacking_over(imps, total, sw, sh, n), x) <==> exists|i: int|
            0 <= i < imps.len() && has_weight(
                impression_stacking_spec(#[trigger] imps[i], total, sw, sh, n),
                x,
            ),
    decreases imps.len(),
{
    if imps.len() > 0 {
        let prev = imps.drop_last();
        lemma_stacking_over_weight(prev, total, sw, sh, n, x);
        lemma_has_weight_concat(
            stacking_over(prev, total, sw, sh, n),
            impression_stacking_spec(imps.last(), total, sw, sh, n),
            x,
        );
        if exists|i: int|
            0 <= i < prev.len() && has_weight(
                impression_stacking_spec(#[trigger] prev[i], total, sw, sh, n),
                x,
            ) {
            let i = choose|i: int|
                0 <= i < prev.len() && has_weight(
                    impression_stacking_spec(#[trigger] prev[i], total, sw, sh, n),
                    x,
                );
            assert(imps[i] == prev[i]);
        }
        assert(imps[imps.len() - 1] == imps.last());
        if exists|i: int|
            0 <= i < imps.len() && has_weight(
                impression_stacking_spec(#[trigger] imps[i], total, sw, sh, n),
                x,
            ) {
            let i = choose|i: int|
                0 <= i < imps.len() && has_weight(
                    impression_stacking_spec(#[trigger] imps[i], total, sw, sh, n),
                    x,
                );
            if i < imps.len() - 1 {
                assert(prev[i] == imps[i]);
            }
        }
    }
}

/// The stacking findings of one impression, by weight.
proof fn lemma_impression_stacking_weight(imp: Impression, total: nat, sw: u32, sh: u32, n: nat, x: nat)
    ensures
        has_weight(impression_stacking_spec(imp, total, sw, sh, n), x) <==> ((banner_exceeds(imp, sw, sh)
            && x == 30) || (banner_has_sides(imp) && 2 * total > 3 * ((sw as int) * (sh as int))
            && n > 1 && x == 25) || (banner_at_most_one_pixel(imp) && x == 20)),
{
    match banner_size(imp) {
        Some((w, h)) => {
            let viewport = area(sw, sh);
            let ad = area(w, h);
            let r1 = "Ad ("@ + decimal(w as nat) + "x"@ + decimal(h as nat) + ") larger than viewport ("@
                + decimal(sw as nat) + "x"@ + decimal(sh as nat) + ") — potential stacking"@;
            let r2 = "Total ad area ("@ + decimal(total) + ") exceeds 150% of viewport ("@ + decimal(
                viewport,
            ) + ") — stacking likely"@;
            let r3 = "Suspiciously small creative ("@ + decimal(w as nat) + "x"@ + decimal(h as nat)
                + ") — pixel tracker"@;
            let p1 = when(ad > viewport, 30, r1);
            let p2 = when(2 * total > 3 * viewport && n > 1, 25, r2);
            let p3 = when(ad <= 1, 20, r3);
            assert(impression_stacking_spec(imp, total, sw, sh, n) == p1 + p2 + p3);
            lemma_has_weight_concat(p1 + p2, p3, x);
            lemma_has_weight_concat(p1, p2, x);
            lemma_has_weight_when(ad > viewport, 30, r1, x);
            lemma_has_weight_when(2 * total > 3 * viewport && n > 1, 25, r2, x);
            lemma_has_weight_when(ad <= 1, 20, r3, x);
        },
        None => {
            assert(!has_weight(impression_stacking_spec(imp, total, sw, sh, n), x));
        },
    }
}

/// The ad-stacking heuristics, each by its weight, on a device that gives both
/// screen sides `sw` and `sh` (without one, there is no finding): a banner
/// larger than the screen (30); a banner of at most one pixel (20); and (25),
/// when there are several impressions and the banners that give both sides
/// cover more than 150% of the screen, a banner that gives both sides.
pub proof fn lemma_ad_stacking_heuristics(req: BidRequest)
    ensures
        !(req.device matches Some(d) && d.w is Some && d.h is Some) ==> ad_stacking_spec(req).len()
            == 0,
        req.device matches Some(d) ==> d.w matches Some(sw) ==> d.h matches Some(sh) ==> {
            &&& has_weight(ad_stacking_spec(req), 30) <==> exists|i: int|
                0 <= i < req.imp@.len() && banner_exceeds(#[trigger] req.imp@[i], sw, sh)
            &&& has_weight(ad_stacking_spec(req), 20) <==> exists|i: int|
                0 <= i < req.imp@.len() && banner_at_most_one_pixel(#[trigger] req.imp@[i])
            &&& has_weight(ad_stacking_spec(req), 25) <==> (req.imp@.len() > 1 && 2 * total_banner_area(
                req.imp@,
            ) > 3 * ((sw as int) * (sh as int)) && exists|i: int|
                0 <= i < req.imp@.len() && banner_has_sides(#[trigger] req.imp@[i]))
        },
{
    match req.device {
        Some(d) => match (d.w, d.h) {
            (Some(sw), Some(sh)) => {
                let imps = req.imp@;
                let total = total_banner_area(imps);
                let n = imps.len();
                assert forall|x: nat, i: int| 0 <= i < imps.len() implies (#[trigger] has_weight(
                    impression_stacking_spec(imps[i], total, sw, sh, n),
                    x,
                ) <==> ((banner_exceeds(imps[i], sw, sh) && x == 30) || (banner_has_sides(imps[i])
                    && 2 * total > 3 * ((sw as int) * (sh as int)) && n > 1 && x == 25) || (
                banner_at_most_one_pixel(imps[i]) && x == 20))) by {
                    lemma_impression_stacking_weight(imps[i], total, sw, sh, n, x);
                }
                assert(ad_stacking_spec(req) == stacking_over(imps, total, sw, sh, n));
                lemma_stacking_over_weight(imps, total, sw, sh, n, 30);
                lemma_stacking_over_weight(imps, total, sw, sh, n, 20);
                lemma_stacking_over_weight(imps, total, sw, sh, n, 25);
                let ghost big = 3 * ((sw as int) * (sh as int));
                if has_weight(ad_stacking_spec(req), 30) {
                    let i = choose|i: int|
                        0 <= i < imps.len() && has_weight(
                            impression_stacking_spec(#[trigger] imps[i], total, sw, sh, n),
                            30,
                        );
                    assert(banner_exceeds(imps[i], sw, sh));
                }
                if exists|i: int| 0 <= i < imps.len() && banner_exceeds(#[trigger] imps[i], sw, sh) {
                    let i = choose|i: int| 0 <= i < imps.len() && banner_exceeds(#[trigger] imps[i], sw, sh);
                    assert(has_weight(impression_stacking_spec(imps[i], total, sw, sh, n), 30));
                }
                if has_weight(ad_stacking_spec(req), 20) {
                    let i = choose|i: int|
                        0 <= i < imps.len() && has_weight(
                            impression_stacking_spec(#[trigger] imps[i], total, sw, sh, n),
                            20,
                        );
                    assert(banner_at_most_one_pixel(imps[i]));
                }
                if exists|i: int| 0 <= i < imps.len() && banner_at_most_one_pixel(#[trigger] imps[i]) {
                    let i = choose|i: int| 0 <= i < imps.len() && banner_at_most_one_pixel(#[trigger] imps[i]);
                    assert(has_weight(impression_stacking_spec(imps[i], total, sw, sh, n), 20));
                }
                if has_weight(ad_stacking_spec(req), 25) {
                    let i = choose|i: int|
                        0 <= i < imps.len() && has_weight(
                            impression_stacking_spec(#[trigger] imps[i], total, sw, sh, n),
                            25,
                        );
                    assert(banner_has_sides(imps[i]) && 2 * total > big && n > 1);
                }
                if n > 1 && 2 * total > big && exists|i: int|
                    0 <= i < imps.len() && banner_has_sides(#[trigger] imps[i]) {
                    let i = choose|i: int| 0 <= i < imps.len() && banner_has_sides(#[trigger] imps[i]);
                    assert(has_weight(impression_stacking_spec(imps[i], total, sw, sh, n), 25));
                }
            },
            _ => {},
        },
        None => {},
    }
}

/// The sum of the detectors' confidences (in hundredths).
pub open spec fn confidence_sum(ds: Seq<DetectorFindings>) -> int
    decreases ds.len(),
{
    if ds.len() == 0 {
        0
    } else {
        confidence_sum(ds.drop_last()) + ds.last().confidence_spec()
    }
}

/// The product of the factors `100 - c` is at least what one minus the sum of
/// the confidences would give: 100·∏(100 - c) ≥ 100ⁿ·(100 - Σc).
proof fn lemma_doubt_at_least_sum(ds: Seq<DetectorFindings>)
    ensures
        100 * doubt_product(ds) >= hundred_pow(ds.len()) * (100 - confidence_sum(ds)),
    decreases ds.len(),
{
    if ds.len() > 0 {
        let rest = ds.drop_last();
        lemma_doubt_at_least_sum(rest);
        lemma_confidence_sum_nonnegative(rest);
        let p = doubt_product(rest) as int;
        let s = confidence_sum(rest);
        let c = ds.last().confidence_spec() as int;
        let h = hundred_pow(rest.len()) as int;
        assert(c <= 100);
        assert(doubt_product(ds) == p * (100 - c));
        assert(hundred_pow(ds.len()) == 100 * h);
        lemma_hundred_pow_grows(0, rest.len());
        assert(confidence_sum(ds) == s + c);
        assert(100 * (p * (100 - c)) >= (100 * h) * (100 - (s + c))) by (nonlinear_arith)
            requires
                100 * p >= h * (100 - s),
                0 <= c <= 100,
                h >= 1,
                s >= 0,
                p >= 0,
        ;
    } else {
        assert(doubt_product(ds) == 1);
        assert(hundred_pow(ds.len()) == 1);
        assert(confidence_sum(ds) == 0);
    }
}

/// The sum of the confidences is never negative.
proof fn lemma_confidence_sum_nonnegative(ds: Seq<DetectorFindings>)
    ensures
        confidence_sum(ds) >= 0,
    decreases ds.len(),
{
    if ds.len() > 0 {
        lemma_confidence_sum_nonnegative(ds.drop_last());
    }
}

/// The union of the confidences never exceeds their sum: it exceeds one half
/// only when the confidences add up to more than 50 hundredths.
pub proof fn lemma_union_within_sum(ds: Seq<DetectorFindings>)
    ensures
        union_exceeds_half(ds) ==> confidence_sum(ds) > 50,
{
    lemma_doubt_at_least_sum(ds);
    lemma_hundred_pow_grows(0, ds.len());
    let h = hundred_pow(ds.len()) as int;
    let p = doubt_product(ds) as int;
    let s = confidence_sum(ds);
    if 2 * p < h {
        assert(s > 50) by (nonlinear_arith)
            requires
                100 * p >= h * (100 - s),
                2 * p < h,
                h >= 1,
        ;
    }
}

} // verus!
