//! OpenRTB 2.6 bid requests, the line-oriented parser's bookkeeping, and the
//! batching of processed requests.
//!
//! The request types hold every field that a rule of this library reads. The
//! floor price, the pixel ratio and the geographic coordinates are floating-point
//! values that no rule reads; the application layer carries them beside these types.
use vstd::prelude::*;

use crate::text::{chars_of, string_from_chars, trim, trim_chars};

verus! {

/// A minimal OpenRTB 2.6 bid request.
#[derive(Debug, Clone)]
pub struct BidRequest {
    /// Unique auction ID.
    pub id: String,
    /// Impression objects.
    pub imp: Vec<Impression>,
    /// Device information.
    pub device: Option<Device>,
    /// User information.
    pub user: Option<User>,
    /// App object (for in-app inventory).
    pub app: Option<App>,
    /// Site object (for web inventory).
    pub site: Option<Site>,
}

/// An impression object within a bid request.
#[derive(Debug, Clone)]
pub struct Impression {
    /// Impression ID.
    pub id: String,
    /// Banner placement details.
    pub banner: Option<Banner>,
    /// Video placement details.
    pub video: Option<Video>,
    /// Currency of the floor price.
    pub bidfloorcur: String,
    /// Interstitial (1) or not (0).
    pub instl: u8,
    /// Tag ID for the placement.
    pub tagid: String,
    /// Secure flag.
    pub secure: u8,
}

/// Banner placement details.
#[derive(Debug, Clone)]
pub struct Banner {
    /// Width in pixels.
    pub w: Option<u32>,
    /// Height in pixels.
    pub h: Option<u32>,
    /// Ad position on screen (OpenRTB 5.4).
    pub pos: Option<u8>,
    /// Blocked creative attributes.
    pub battr: Vec<u8>,
}

/// Video placement details.
#[derive(Debug, Clone)]
pub struct Video {
    /// Width in pixels.
    pub w: Option<u32>,
    /// Height in pixels.
    pub h: Option<u32>,
    /// Minimum video duration in seconds.
    pub minduration: Option<u32>,
    /// Maximum video duration in seconds.
    pub maxduration: Option<u32>,
    /// Placement type (OpenRTB 5.9).
    pub placement: Option<u8>,
    /// Linearity (OpenRTB 5.7).
    pub linearity: Option<u8>,
    /// Supported video protocols.
    pub protocols: Vec<u8>,
    /// Supported MIME types.
    pub mimes: Vec<String>,
}

/// Device information.
#[derive(Debug, Clone)]
pub struct Device {
    /// User agent string.
    pub ua: String,
    /// Device geographic location.
    pub geo: Option<Geo>,
    /// Do-not-track flag.
    pub dnt: u8,
    /// Limit ad tracking flag.
    pub lmt: u8,
    /// IP address.
    pub ip: String,
    /// Device type (OpenRTB 5.21).
    pub devicetype: Option<u8>,
    /// Device make.
    pub make: String,
    /// Device model.
    pub model: String,
    /// Operating system.
    pub os: String,
    /// OS version.
    pub osv: String,
    /// Screen width in pixels.
    pub w: Option<u32>,
    /// Screen height in pixels.
    pub h: Option<u32>,
    /// Screen pixel density.
    pub ppi: Option<u32>,
    /// Browser language.
    pub language: String,
    /// Carrier.
    pub carrier: String,
    /// Connection type (OpenRTB 5.22).
    pub connectiontype: Option<u8>,
    /// Hardware-based device ID (IFA).
    pub ifa: String,
}

/// Geographic data.
#[derive(Debug, Clone)]
pub struct Geo {
    /// Country code.
    pub country: String,
    /// Region code.
    pub region: String,
    /// City name.
    pub city: String,
    /// Postal code.
    pub zip: String,
    /// Location source (OpenRTB 5.17).
    pub location_type: Option<u8>,
}

/// User information.
#[derive(Debug, Clone)]
pub struct User {
    /// User ID assigned by the exchange.
    pub id: String,
    /// Buyer-specific user ID.
    pub buyeruid: String,
    /// Year of birth.
    pub yob: Option<u32>,
    /// Gender ("M", "F", "O").
    pub gender: String,
    /// User's geographic data.
    pub geo: Option<Geo>,
}

/// App information (for in-app inventory).
#[derive(Debug, Clone)]
pub struct App {
    /// Application ID.
    pub id: String,
    /// Application name.
    pub name: String,
    /// Application bundle/package name.
    pub bundle: String,
    /// App store domain.
    pub domain: String,
    /// IAB content categories.
    pub cat: Vec<String>,
    /// Application version.
    pub ver: String,
    /// Paid (1) or free (0).
    pub paid: u8,
    /// Publisher information.
    pub publisher: Option<Publisher>,
}

/// Site information (for web inventory).
#[derive(Debug, Clone)]
pub struct Site {
    /// Site ID.
    pub id: String,
    /// Site name.
    pub name: String,
    /// Site domain.
    pub domain: String,
    /// IAB content categories.
    pub cat: Vec<String>,
    /// Publisher information.
    pub publisher: Option<Publisher>,
}

/// Publisher information.
#[derive(Debug, Clone)]
pub struct Publisher {
    /// Publisher ID.
    pub id: String,
    /// Publisher name.
    pub name: String,
    /// Publisher domain.
    pub domain: String,
}

/// What became of one line handed to the parser.
#[derive(Debug, Clone, Copy, PartialEq, Eq)]
pub enum LineOutcome {
    /// A blank line, skipped.
    Skipped,
    /// A line decoded into a request.
    Decoded,
    /// A line that failed to decode.
    Rejected,
}

/// How many of `lines` had the outcome `o`.
pub open spec fn count_outcome(lines: Seq<LineOutcome>, o: LineOutcome) -> nat
    decreases lines.len(),
{
    if lines.len() == 0 {
        0
    } else {
        count_outcome(lines.drop_last(), o) + if lines.last() == o {
            1nat
        } else {
            0nat
        }
    }
}

/// A parser for NDJSON bid streams (one JSON object per line): it frames each
/// line, hands the text to a decoder, and counts the lines decoded and rejected.
pub struct BidStreamParser {
    parsed: u64,
    errors: u64,
    lines: Ghost<Seq<LineOutcome>>,
}

impl View for BidStreamParser {
    /// (requests decoded, lines rejected)
    type V = (nat, nat);

    closed spec fn view(&self) -> (nat, nat) {
        (self.parsed as nat, self.errors as nat)
    }
}

impl BidStreamParser {
    /// The outcomes of the lines handed to the parser so far, in order.
    pub closed spec fn lines(&self) -> Seq<LineOutcome> {
        self.lines@
    }

    /// The counts are the numbers of decoded and of rejected lines.
    #[verifier::type_invariant]
    closed spec fn counts_match_lines(self) -> bool {
        &&& self.parsed == count_outcome(self.lines@, LineOutcome::Decoded)
        &&& self.errors == count_outcome(self.lines@, LineOutcome::Rejected)
    }

    /// Creates a parser that has seen no line.
    pub fn new() -> (r: Self)
        ensures
            r@ == (0nat, 0nat),
            r.lines() == Seq::<LineOutcome>::empty(),
    {
        BidStreamParser { parsed: 0, errors: 0, lines: Ghost(Seq::empty()) }
    }

    /// The text of a line that is to be decoded: the line without surrounding
    /// white space, or `None` for a blank line, which is skipped.
    pub fn payload(line: &str) -> (r: Option<String>)
        ensures
            r is None <==> trim(line@).len() == 0,
            r matches Some(p) ==> p@ == trim(line@),
    {
        let chars = chars_of(line);
        let trimmed = trim_chars(&chars);
        if trimmed.len() == 0 {
            None
        } else {
            Some(string_from_chars(trimmed.as_slice()))
        }
    }

    /// Parses one line: a blank line gives `Ok(None)` and changes no count;
    /// otherwise the trimmed line is handed to `decode`, and its request (one
    /// more parsed) or its error (one more error) is returned.
    pub fn parse_line<T, E, F: Fn(String) -> Result<T, E>>(&mut self, line: &str, decode: F) -> (r: Result<Option<T>, E>)
        requires
            old(self)@.0 < u64::MAX,
            old(self)@.1 < u64::MAX,
            forall|text: String| call_requires(decode, (text,)),
        ensures
            (r matches Ok(None)) <==> trim(line@).len() == 0,
            r matches Ok(None) ==> final(self)@ == old(self)@ && final(self).lines() == old(self).lines().push(
                LineOutcome::Skipped,
            ),
            r matches Ok(Some(v)) ==> {
                &&& final(self)@ == (old(self)@.0 + 1, old(self)@.1)
                &&& final(self).lines() == old(self).lines().push(LineOutcome::Decoded)
                &&& exists|text: String| text@ == trim(line@) && call_ensures(decode, (text,), Ok::<T, E>(v))
            },
            r matches Err(e) ==> {
                &&& final(self)@ == (old(self)@.0, old(self)@.1 + 1)
                &&& final(self).lines() == old(self).lines().push(LineOutcome::Rejected)
                &&& exists|text: String| text@ == trim(line@) && call_ensures(decode, (text,), Err::<T, E>(e))
            },
    {
        proof {
            use_type_invariant(&*self);
        }
        let ghost before = self.lines@;
        match Self::payload(line) {
            None => {
                let ghost after = before.push(LineOutcome::Skipped);
                assert(after.drop_last() =~= before);
                *self = BidStreamParser { parsed: self.parsed, errors: self.errors, lines: Ghost(after) };
                Ok(None)
            },
            Some(text) => {
                match decode(text) {
                    Ok(v) => {
                        let ghost after = before.push(LineOutcome::Decoded);
                        assert(after.drop_last() =~= before);
                        *self = BidStreamParser { parsed: self.parsed + 1, errors: self.errors, lines: Ghost(after) };
                        Ok(Some(v))
                    },
                    Err(e) => {
                        let ghost after = before.push(LineOutcome::Rejected);
                        assert(after.drop_last() =~= before);
                        *self = BidStreamParser { parsed: self.parsed, errors: self.errors + 1, lines: Ghost(after) };
                        Err(e)
                    },
                }
            },
        }
    }

    /// Returns the total number of successfully parsed requests: the number of
    /// lines decoded so far.
    pub fn parsed_count(&self) -> (r: u64)
        ensures
            r == self@.0,
            r == count_outcome(self.lines(), LineOutcome::Decoded),
    {
        proof {
            use_type_invariant(self);
        }
        self.parsed
    }

    /// Returns the total number of parse errors: the number of lines rejected so far.
    pub fn error_count(&self) -> (r: u64)
        ensures
            r == self@.1,
            r == count_outcome(self.lines(), LineOutcome::Rejected),
    {
        proof {
            use_type_invariant(self);
        }
        self.errors
    }
}

impl Default for BidStreamParser {
    fn default() -> (r: Self)
        ensures
            r@ == (0nat, 0nat),
            r.lines() == Seq::<LineOutcome>::empty(),
    {
        Self::new()
    }
}

/// Groups processed requests into batches of a configured size.
#[derive(Clone)]
pub struct BidStreamProcessor {
    batch_size: usize,
}

/// The number of items in a completed batch: the batch size, or one when it is zero
/// (a batch is complete as soon as it holds at least `batch_size` items).
pub open spec fn batch_capacity(batch_size: nat) -> nat {
    if batch_size == 0 {
        1
    } else {
        batch_size
    }
}

/// Adds `item` to the batch being filled: when the batch then holds at least
/// `batch_size` items it is complete and a new, empty batch begins.
pub open spec fn push_step<T>(batch_size: nat, current: Seq<T>, item: T) -> (Option<Seq<T>>, Seq<T>) {
    let filled = current.push(item);
    if filled.len() >= batch_size {
        (Some(filled), Seq::empty())
    } else {
        (None, filled)
    }
}

/// The completed batches and the batch being filled after `items` are pushed
/// one after another, starting from nothing.
pub open spec fn fed<T>(batch_size: nat, items: Seq<T>) -> (Seq<Seq<T>>, Seq<T>)
    decreases items.len(),
{
    if items.len() == 0 {
        (Seq::empty(), Seq::empty())
    } else {
        let prev = fed(batch_size, items.drop_last());
        let step = push_step(batch_size, prev.1, items.last());
        match step.0 {
            Some(b) => (prev.0.push(b), step.1),
            None => (prev.0, step.1),
        }
    }
}

/// The batches laid end to end.
pub open spec fn concat_batches<T>(batches: Seq<Seq<T>>) -> Seq<T>
    decreases batches.len(),
{
    if batches.len() == 0 {
        Seq::empty()
    } else {
        concat_batches(batches.drop_last()) + batches.last()
    }
}

impl BidStreamProcessor {
    /// Creates a new processor with the given batch size.
    pub fn new(batch_size: usize) -> (r: Self)
        ensures
            r.batch_size() == batch_size,
    {
        BidStreamProcessor { batch_size }
    }

    /// The configured batch size.
    #[verifier::when_used_as_spec(spec_batch_size)]
    pub fn batch_size(&self) -> (r: usize)
        ensures
            r == self.spec_batch_size(),
    {
        self.batch_size
    }

    /// The configured batch size.
    pub closed spec fn spec_batch_size(&self) -> usize {
        self.batch_size
    }

    /// Adds a processed item to the batch being filled; returns the batch when
    /// it is complete, leaving an empty batch to fill.
    pub fn push_into_batch<T>(&self, current: &mut Vec<T>, item: T) -> (full: Option<Vec<T>>)
        ensures
            ({
                let step = push_step(self.batch_size() as nat, old(current)@, item);
                &&& final(current)@ == step.1
                &&& match full {
                    Some(b) => step.0 == Some(b@),
                    None => step.0 is None,
                }
            }),
    {
        current.push(item);
        if current.len() >= self.batch_size {
            let mut done: Vec<T> = Vec::new();
            std::mem::swap(&mut done, current);
            Some(done)
        } else {
            None
        }
    }

    /// The last, partly filled batch, if it holds anything.
    pub fn finish_batch<T>(current: Vec<T>) -> (r: Option<Vec<T>>)
        ensures
            r is Some <==> current@.len() > 0,
            r matches Some(b) ==> b@ == current@,
    {
        if current.len() > 0 {
            Some(current)
        } else {
            None
        }
    }
}

/// Batching partitions the stream: the completed batches followed by the batch
/// being filled are the items in their order; every completed batch holds exactly
/// the batch capacity; the batch being filled holds fewer; and there are as many
/// completed batches as whole capacities fit in the item count.
pub proof fn lemma_batching_partitions_stream<T>(batch_size: nat, items: Seq<T>)
    ensures
        ({
            let r = fed(batch_size, items);
            &&& concat_batches(r.0) + r.1 == items
            &&& forall|i: int| 0 <= i < r.0.len() ==> #[trigger] r.0[i].len() == batch_capacity(batch_size)
            &&& r.1.len() < batch_capacity(batch_size)
            &&& r.0.len() == items.len() / batch_capacity(batch_size)
            &&& r.1.len() == items.len() % batch_capacity(batch_size)
        }),
    decreases items.len(),
{
    let cap = batch_capacity(batch_size);
    if items.len() == 0 {
        assert(concat_batches(Seq::<Seq<T>>::empty()) + Seq::<T>::empty() =~= items);
    } else {
        let prev_items = items.drop_last();
        lemma_batching_partitions_stream(batch_size, prev_items);
        let prev = fed(batch_size, prev_items);
        let filled = prev.1.push(items.last());
        assert(prev_items.push(items.last()) =~= items);
        if filled.len() >= batch_size {
            let done = prev.0.push(filled);
            assert(done.drop_last() =~= prev.0);
            assert(concat_batches(done) =~= concat_batches(prev.0) + filled);
            assert(concat_batches(done) + Seq::<T>::empty() =~= items);
            assert(filled.len() == cap);
            assert(prev_items.len() % cap == cap - 1);
            vstd::arithmetic::div_mod::lemma_fundamental_div_mod(prev_items.len() as int, cap as int);
            let q = prev.0.len() as int;
            assert(items.len() == (q + 1) * cap) by (nonlinear_arith)
                requires
                    prev_items.len() == cap * q + (cap - 1),
                    items.len() == prev_items.len() + 1,
            ;
            vstd::arithmetic::div_mod::lemma_fundamental_div_mod_converse(
                items.len() as int,
                cap as int,
                q + 1,
                0,
            );
        } else {
            assert(concat_batches(prev.0) + filled =~= items);
            vstd::arithmetic::div_mod::lemma_fundamental_div_mod(prev_items.len() as int, cap as int);
            let q = prev.0.len() as int;
            assert(items.len() == q * cap + filled.len()) by (nonlinear_arith)
                requires
                    prev_items.len() == cap * q + prev.1.len(),
                    items.len() == prev_items.len() + 1,
                    filled.len() == prev.1.len() + 1,
            ;
            vstd::arithmetic::div_mod::lemma_fundamental_div_mod_converse(
                items.len() as int,
                cap as int,
                q,
                filled.len() as int,
            );
        }
    }
}

} // verus!
