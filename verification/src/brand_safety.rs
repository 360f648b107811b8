//! Brand safety: a keyword lexicon in six categories and the scan of a
//! text for its keywords.
//!
//! Matching is case-insensitive (the text is lower-cased) and counts every
//! disjoint occurrence of a keyword, also inside longer words. The scan reports,
//! per category, each keyword found with its weight (in tenths) and its number of
//! occurrences, the number of words in the text, and up to 50 flagged terms of
//! the form `category:keyword`.
use vstd::prelude::*;

use crate::text::{
    ascii_lower, ascii_lowercase, chars_of, eq_ignore_ascii_case, is_ascii_text, contains, contains_exec, count_matches, count_words, lowercase,
    match_count, to_lowercase, word_count,
};

verus! {

/// A keyword and its weight in tenths (9 stands for 0.9).
#[derive(Debug, Clone)]
pub struct Keyword {
    /// The keyword, in lower case.
    pub term: String,
    /// Weight in tenths.
    pub weight: u32,
}

/// A category of brand-unsafe content and its keywords.
#[derive(Debug, Clone)]
pub struct Category {
    /// Category name.
    pub name: String,
    /// Keywords with their weights.
    pub keywords: Vec<Keyword>,
}

/// A keyword as a (term, weight) pair.
pub open spec fn keyword_view(k: Keyword) -> (Seq<char>, nat) {
    (k.term@, k.weight as nat)
}

/// A category as a (name, keywords) pair.
pub open spec fn category_view(c: Category) -> (Seq<char>, Seq<(Seq<char>, nat)>) {
    (c.name@, c.keywords@.map_values(|k: Keyword| keyword_view(k)))
}

/// The `adult` keywords with their weights in tenths.
pub open spec fn adult_terms() -> Seq<(Seq<char>, nat)> {
    seq![
        ("porn"@, 9nat),
        ("pornography"@, 10nat),
        ("xxx"@, 8nat),
        ("adult content"@, 8nat),
        ("sexual"@, 6nat),
        ("explicit"@, 7nat),
        ("nude"@, 7nat),
        ("nudity"@, 8nat),
        ("sex"@, 5nat),
        ("erotic"@, 6nat),
        ("hentai"@, 8nat),
        ("onlyfans"@, 9nat),
        ("cam girl"@, 9nat),
        ("webcam sex"@, 10nat),
        ("strip club"@, 8nat),
        ("escort"@, 8nat),
        ("nsfw"@, 7nat),
        ("milf"@, 8nat),
        ("bdsm"@, 8nat),
        ("orgy"@, 9nat),
        ("incest"@, 10nat),
        ("barely legal"@, 9nat),
        ("teen porn"@, 10nat),
    ]
}

/// The `violence` keywords with their weights in tenths.
pub open spec fn violence_terms() -> Seq<(Seq<char>, nat)> {
    seq![
        ("kill"@, 6nat),
        ("murder"@, 9nat),
        ("death"@, 5nat),
        ("die"@, 4nat),
        ("shoot"@, 6nat),
        ("shooting"@, 8nat),
        ("gun"@, 5nat),
        ("weapon"@, 5nat),
        ("bomb"@, 8nat),
        ("explosion"@, 6nat),
        ("terrorist"@, 9nat),
        ("terrorism"@, 10nat),
        ("massacre"@, 10nat),
        ("slaughter"@, 9nat),
        ("behead"@, 10nat),
        ("torture"@, 8nat),
        ("abuse"@, 4nat),
        ("assault"@, 7nat),
        ("blood"@, 5nat),
        ("gore"@, 9nat),
        ("war"@, 4nat),
        ("genocide"@, 10nat),
        ("execution"@, 7nat),
        ("hostage"@, 7nat),
        ("kidnap"@, 7nat),
        ("riot"@, 6nat),
        ("stabbing"@, 7nat),
    ]
}

/// The `hate_speech` keywords with their weights in tenths.
pub open spec fn hate_speech_terms() -> Seq<(Seq<char>, nat)> {
    seq![
        ("nazi"@, 9nat),
        ("white supremacist"@, 10nat),
        ("racial slur"@, 10nat),
        ("hate crime"@, 8nat),
        ("discrimination"@, 4nat),
        ("bigot"@, 7nat),
        ("xenophobia"@, 6nat),
        ("antisemite"@, 9nat),
        ("holocaust denial"@, 10nat),
        ("ethnic cleansing"@, 10nat),
        ("supremacy"@, 8nat),
        ("racial purity"@, 9nat),
        ("kkk"@, 10nat),
        ("neo-nazi"@, 10nat),
        ("misogyny"@, 6nat),
        ("homophobic"@, 7nat),
        ("transphobic"@, 7nat),
        ("racist"@, 7nat),
        ("fascist"@, 5nat),
        ("hate speech"@, 7nat),
        ("bigotry"@, 6nat),
    ]
}

/// The `drugs` keywords with their weights in tenths.
pub open spec fn drugs_terms() -> Seq<(Seq<char>, nat)> {
    seq![
        ("cocaine"@, 9nat),
        ("heroin"@, 10nat),
        ("marijuana"@, 4nat),
        ("weed"@, 3nat),
        ("cannabis"@, 3nat),
        ("meth"@, 9nat),
        ("amphetamine"@, 6nat),
        ("opioid"@, 6nat),
        ("fentanyl"@, 9nat),
        ("lsd"@, 7nat),
        ("ecstasy"@, 7nat),
        ("mdma"@, 7nat),
        ("crack"@, 9nat),
        ("drug dealer"@, 9nat),
        ("buy weed"@, 6nat),
        ("order xanax"@, 8nat),
        ("painkiller"@, 3nat),
        ("recreational drug"@, 5nat),
        ("substance abuse"@, 5nat),
        ("overdose"@, 7nat),
        ("narcotic"@, 7nat),
    ]
}

/// The `gambling` keywords with their weights in tenths.
pub open spec fn gambling_terms() -> Seq<(Seq<char>, nat)> {
    seq![
        ("casino"@, 7nat),
        ("poker"@, 5nat),
        ("bet"@, 4nat),
        ("betting"@, 6nat),
        ("slot machine"@, 7nat),
        ("roulette"@, 6nat),
        ("blackjack"@, 5nat),
        ("lottery"@, 4nat),
        ("gambling"@, 8nat),
        ("online casino"@, 9nat),
        ("sportsbook"@, 7nat),
        ("wagering"@, 6nat),
        ("play for real money"@, 8nat),
        ("jackpot"@, 5nat),
        ("bingo for cash"@, 6nat),
        ("bet online"@, 7nat),
    ]
}

/// The `profanity` keywords with their weights in tenths.
pub open spec fn profanity_terms() -> Seq<(Seq<char>, nat)> {
    seq![
        ("fuck"@, 8nat),
        ("shit"@, 6nat),
        ("asshole"@, 6nat),
        ("bastard"@, 5nat),
        ("bitch"@, 6nat),
        ("cunt"@, 10nat),
        ("damn"@, 3nat),
        ("dick"@, 6nat),
        ("piss"@, 4nat),
        ("slut"@, 7nat),
        ("whore"@, 8nat),
        ("motherfucker"@, 9nat),
        ("cock"@, 7nat),
        ("bullshit"@, 5nat),
        ("goddamn"@, 4nat),
    ]
}

/// The lexicon: the six categories, in the order they are scanned.
pub open spec fn lexicon() -> Seq<(Seq<char>, Seq<(Seq<char>, nat)>)> {
    seq![
        ("adult"@, adult_terms()),
        ("violence"@, violence_terms()),
        ("hate_speech"@, hate_speech_terms()),
        ("drugs"@, drugs_terms()),
        ("gambling"@, gambling_terms()),
        ("profanity"@, profanity_terms()),
    ]
}

/// Every character of `s` is ASCII and no upper-case letter: lower-casing
/// leaves it as it is.
pub open spec fn is_lower_ascii(s: Seq<char>) -> bool {
    forall|k: int| 0 <= k < s.len() ==> (s[k] as u32) < 128 && ascii_lower(#[trigger] s[k]) == s[k]
}

/// Every `adult` keyword is non-empty lower-case ASCII.
proof fn lemma_adult_terms_nonempty()
    ensures
        forall|j: int| 0 <= j < adult_terms().len() ==> #[trigger] adult_terms()[j].0.len() > 0,
        forall|j: int| 0 <= j < adult_terms().len() ==> is_lower_ascii(#[trigger] adult_terms()[j].0),
{
    reveal_strlit("porn");
    reveal_strlit("pornography");
    reveal_strlit("xxx");
    reveal_strlit("adult content");
    reveal_strlit("sexual");
    reveal_strlit("explicit");
    reveal_strlit("nude");
    reveal_strlit("nudity");
    reveal_strlit("sex");
    reveal_strlit("erotic");
    reveal_strlit("hentai");
    reveal_strlit("onlyfans");
    reveal_strlit("cam girl");
    reveal_strlit("webcam sex");
    reveal_strlit("strip club");
    reveal_strlit("escort");
    reveal_strlit("nsfw");
    reveal_strlit("milf");
    reveal_strlit("bdsm");
    reveal_strlit("orgy");
    reveal_strlit("incest");
    reveal_strlit("barely legal");
    reveal_strlit("teen porn");
    assert forall|j: int| 0 <= j < adult_terms().len() implies #[trigger] adult_terms()[j].0.len() > 0 by {
    }
}

/// Every `violence` keyword is non-empty lower-case ASCII.
proof fn lemma_violence_terms_nonempty()
    ensures
        forall|j: int| 0 <= j < violence_terms().len() ==> #[trigger] violence_terms()[j].0.len() > 0,
        forall|j: int| 0 <= j < violence_terms().len() ==> is_lower_ascii(#[trigger] violence_terms()[j].0),
{
    reveal_strlit("kill");
    reveal_strlit("murder");
    reveal_strlit("death");
    reveal_strlit("die");
    reveal_strlit("shoot");
    reveal_strlit("shooting");
    reveal_strlit("gun");
    reveal_strlit("weapon");
    reveal_strlit("bomb");
    reveal_strlit("explosion");
    reveal_strlit("terrorist");
    reveal_strlit("terrorism");
    reveal_strlit("massacre");
    reveal_strlit("slaughter");
    reveal_strlit("behead");
    reveal_strlit("torture");
    reveal_strlit("abuse");
    reveal_strlit("assault");
    reveal_strlit("blood");
    reveal_strlit("gore");
    reveal_strlit("war");
    reveal_strlit("genocide");
    reveal_strlit("execution");
    reveal_strlit("hostage");
    reveal_strlit("kidnap");
    reveal_strlit("riot");
    reveal_strlit("stabbing");
    assert forall|j: int| 0 <= j < violence_terms().len() implies #[trigger] violence_terms()[j].0.len() > 0 by {
    }
}

/// Every `hate_speech` keyword is non-empty lower-case ASCII.
proof fn lemma_hate_speech_terms_nonempty()
    ensures
        forall|j: int| 0 <= j < hate_speech_terms().len() ==> #[trigger] hate_speech_terms()[j].0.len() > 0,
        forall|j: int| 0 <= j < hate_speech_terms().len() ==> is_lower_ascii(#[trigger] hate_speech_terms()[j].0),
{
    reveal_strlit("nazi");
    reveal_strlit("white supremacist");
    reveal_strlit("racial slur");
    reveal_strlit("hate crime");
    reveal_strlit("discrimination");
    reveal_strlit("bigot");
    reveal_strlit("xenophobia");
    reveal_strlit("antisemite");
    reveal_strlit("holocaust denial");
    reveal_strlit("ethnic cleansing");
    reveal_strlit("supremacy");
    reveal_strlit("racial purity");
    reveal_strlit("kkk");
    reveal_strlit("neo-nazi");
    reveal_strlit("misogyny");
    reveal_strlit("homophobic");
    reveal_strlit("transphobic");
    reveal_strlit("racist");
    reveal_strlit("fascist");
    reveal_strlit("hate speech");
    reveal_strlit("bigotry");
    assert forall|j: int| 0 <= j < hate_speech_terms().len() implies #[trigger] hate_speech_terms()[j].0.len() > 0 by {
    }
}

/// Every `drugs` keyword is non-empty lower-case ASCII.
proof fn lemma_drugs_terms_nonempty()
    ensures
        forall|j: int| 0 <= j < drugs_terms().len() ==> #[trigger] drugs_terms()[j].0.len() > 0,
        forall|j: int| 0 <= j < drugs_terms().len() ==> is_lower_ascii(#[trigger] drugs_terms()[j].0),
{
    reveal_strlit("cocaine");
    reveal_strlit("heroin");
    reveal_strlit("marijuana");
    reveal_strlit("weed");
    reveal_strlit("cannabis");
    reveal_strlit("meth");
    reveal_strlit("amphetamine");
    reveal_strlit("opioid");
    reveal_strlit("fentanyl");
    reveal_strlit("lsd");
    reveal_strlit("ecstasy");
    reveal_strlit("mdma");
    reveal_strlit("crack");
    reveal_strlit("drug dealer");
    reveal_strlit("buy weed");
    reveal_strlit("order xanax");
    reveal_strlit("painkiller");
    reveal_strlit("recreational drug");
    reveal_strlit("substance abuse");
    reveal_strlit("overdose");
    reveal_strlit("narcotic");
    assert forall|j: int| 0 <= j < drugs_terms().len() implies #[trigger] drugs_terms()[j].0.len() > 0 by {
    }
}

/// Every `gambling` keyword is non-empty lower-case ASCII.
proof fn lemma_gambling_terms_nonempty()
    ensures
        forall|j: int| 0 <= j < gambling_terms().len() ==> #[trigger] gambling_terms()[j].0.len() > 0,
        forall|j: int| 0 <= j < gambling_terms().len() ==> is_lower_ascii(#[trigger] gambling_terms()[j].0),
{
    reveal_strlit("casino");
    reveal_strlit("poker");
    reveal_strlit("bet");
    reveal_strlit("betting");
    reveal_strlit("slot machine");
    reveal_strlit("roulette");
    reveal_strlit("blackjack");
    reveal_strlit("lottery");
    reveal_strlit("gambling");
    reveal_strlit("online casino");
    reveal_strlit("sportsbook");
    reveal_strlit("wagering");
    reveal_strlit("play for real money");
    reveal_strlit("jackpot");
    reveal_strlit("bingo for cash");
    reveal_strlit("bet online");
    assert forall|j: int| 0 <= j < gambling_terms().len() implies #[trigger] gambling_terms()[j].0.len() > 0 by {
    }
}

/// Every `profanity` keyword is non-empty lower-case ASCII.
proof fn lemma_profanity_terms_nonempty()
    ensures
        forall|j: int| 0 <= j < profanity_terms().len() ==> #[trigger] profanity_terms()[j].0.len() > 0,
        forall|j: int| 0 <= j < profanity_terms().len() ==> is_lower_ascii(#[trigger] profanity_terms()[j].0),
{
    reveal_strlit("fuck");
    reveal_strlit("shit");
    reveal_strlit("asshole");
    reveal_strlit("bastard");
    reveal_strlit("bitch");
    reveal_strlit("cunt");
    reveal_strlit("damn");
    reveal_strlit("dick");
    reveal_strlit("piss");
    reveal_strlit("slut");
    reveal_strlit("whore");
    reveal_strlit("motherfucker");
    reveal_strlit("cock");
    reveal_strlit("bullshit");
    reveal_strlit("goddamn");
    assert forall|j: int| 0 <= j < profanity_terms().len() implies #[trigger] profanity_terms()[j].0.len() > 0 by {
    }
}

/// Every keyword of the lexicon is non-empty lower-case ASCII.
proof fn lemma_lexicon_terms_nonempty()
    ensures
        forall|i: int, j: int|
            0 <= i < lexicon().len() && 0 <= j < lexicon()[i].1.len() ==> #[trigger] lexicon()[i].1[j].0.len() > 0,
        forall|i: int, j: int|
            0 <= i < lexicon().len() && 0 <= j < lexicon()[i].1.len() ==> is_lower_ascii(
                #[trigger] lexicon()[i].1[j].0,
            ),
{
    lemma_adult_terms_nonempty();
    lemma_violence_terms_nonempty();
    lemma_hate_speech_terms_nonempty();
    lemma_drugs_terms_nonempty();
    lemma_gambling_terms_nonempty();
    lemma_profanity_terms_nonempty();
}

/// Appends a keyword.
fn push_keyword(v: &mut Vec<Keyword>, term: &str, weight: u32)
    ensures
        final(v)@.map_values(|k: Keyword| keyword_view(k)) == old(v)@.map_values(
            |k: Keyword| keyword_view(k),
        ).push((term@, weight as nat)),
{
    v.push(Keyword { term: String::from_str(term), weight });
    assert(v@.map_values(|k: Keyword| keyword_view(k)) =~= old(v)@.map_values(
        |k: Keyword| keyword_view(k),
    ).push((term@, weight as nat)));
}

/// The `adult` category.
fn adult_category() -> (r: Category)
    ensures
        category_view(r) == ("adult"@, adult_terms()),
{
    let mut v: Vec<Keyword> = Vec::new();
    push_keyword(&mut v, "porn", 9);
    push_keyword(&mut v, "pornography", 10);
    push_keyword(&mut v, "xxx", 8);
    push_keyword(&mut v, "adult content", 8);
    push_keyword(&mut v, "sexual", 6);
    push_keyword(&mut v, "explicit", 7);
    push_keyword(&mut v, "nude", 7);
    push_keyword(&mut v, "nudity", 8);
    push_keyword(&mut v, "sex", 5);
    push_keyword(&mut v, "erotic", 6);
    push_keyword(&mut v, "hentai", 8);
    push_keyword(&mut v, "onlyfans", 9);
    push_keyword(&mut v, "cam girl", 9);
    push_keyword(&mut v, "webcam sex", 10);
    push_keyword(&mut v, "strip club", 8);
    push_keyword(&mut v, "escort", 8);
    push_keyword(&mut v, "nsfw", 7);
    push_keyword(&mut v, "milf", 8);
    push_keyword(&mut v, "bdsm", 8);
    push_keyword(&mut v, "orgy", 9);
    push_keyword(&mut v, "incest", 10);
    push_keyword(&mut v, "barely legal", 9);
    push_keyword(&mut v, "teen porn", 10);
    assert(v@.map_values(|k: Keyword| keyword_view(k)) =~= adult_terms());
    Category { name: String::from_str("adult"), keywords: v }
}

/// The `violence` category.
fn violence_category() -> (r: Category)
    ensures
        category_view(r) == ("violence"@, violence_terms()),
{
    let mut v: Vec<Keyword> = Vec::new();
    push_keyword(&mut v, "kill", 6);
    push_keyword(&mut v, "murder", 9);
    push_keyword(&mut v, "death", 5);
    push_keyword(&mut v, "die", 4);
    push_keyword(&mut v, "shoot", 6);
    push_keyword(&mut v, "shooting", 8);
    push_keyword(&mut v, "gun", 5);
    push_keyword(&mut v, "weapon", 5);
    push_keyword(&mut v, "bomb", 8);
    push_keyword(&mut v, "explosion", 6);
    push_keyword(&mut v, "terrorist", 9);
    push_keyword(&mut v, "terrorism", 10);
    push_keyword(&mut v, "massacre", 10);
    push_keyword(&mut v, "slaughter", 9);
    push_keyword(&mut v, "behead", 10);
    push_keyword(&mut v, "torture", 8);
    push_keyword(&mut v, "abuse", 4);
    push_keyword(&mut v, "assault", 7);
    push_keyword(&mut v, "blood", 5);
    push_keyword(&mut v, "gore", 9);
    push_keyword(&mut v, "war", 4);
    push_keyword(&mut v, "genocide", 10);
    push_keyword(&mut v, "execution", 7);
    push_keyword(&mut v, "hostage", 7);
    push_keyword(&mut v, "kidnap", 7);
    push_keyword(&mut v, "riot", 6);
    push_keyword(&mut v, "stabbing", 7);
    assert(v@.map_values(|k: Keyword| keyword_view(k)) =~= violence_terms());
    Category { name: String::from_str("violence"), keywords: v }
}

/// The `hate_speech` category.
fn hate_speech_category() -> (r: Category)
    ensures
        category_view(r) == ("hate_speech"@, hate_speech_terms()),
{
    let mut v: Vec<Keyword> = Vec::new();
    push_keyword(&mut v, "nazi", 9);
    push_keyword(&mut v, "white supremacist", 10);
    push_keyword(&mut v, "racial slur", 10);
    push_keyword(&mut v, "hate crime", 8);
    push_keyword(&mut v, "discrimination", 4);
    push_keyword(&mut v, "bigot", 7);
    push_keyword(&mut v, "xenophobia", 6);
    push_keyword(&mut v, "antisemite", 9);
    push_keyword(&mut v, "holocaust denial", 10);
    push_keyword(&mut v, "ethnic cleansing", 10);
    push_keyword(&mut v, "supremacy", 8);
    push_keyword(&mut v, "racial purity", 9);
    push_keyword(&mut v, "kkk", 10);
    push_keyword(&mut v, "neo-nazi", 10);
    push_keyword(&mut v, "misogyny", 6);
    push_keyword(&mut v, "homophobic", 7);
    push_keyword(&mut v, "transphobic", 7);
    push_keyword(&mut v, "racist", 7);
    push_keyword(&mut v, "fascist", 5);
    push_keyword(&mut v, "hate speech", 7);
    push_keyword(&mut v, "bigotry", 6);
    assert(v@.map_values(|k: Keyword| keyword_view(k)) =~= hate_speech_terms());
    Category { name: String::from_str("hate_speech"), keywords: v }
}

/// The `drugs` category.
fn drugs_category() -> (r: Category)
    ensures
        category_view(r) == ("drugs"@, drugs_terms()),
{
    let mut v: Vec<Keyword> = Vec::new();
    push_keyword(&mut v, "cocaine", 9);
    push_keyword(&mut v, "heroin", 10);
    push_keyword(&mut v, "marijuana", 4);
    push_keyword(&mut v, "weed", 3);
    push_keyword(&mut v, "cannabis", 3);
    push_keyword(&mut v, "meth", 9);
    push_keyword(&mut v, "amphetamine", 6);
    push_keyword(&mut v, "opioid", 6);
    push_keyword(&mut v, "fentanyl", 9);
    push_keyword(&mut v, "lsd", 7);
    push_keyword(&mut v, "ecstasy", 7);
    push_keyword(&mut v, "mdma", 7);
    push_keyword(&mut v, "crack", 9);
    push_keyword(&mut v, "drug dealer", 9);
    push_keyword(&mut v, "buy weed", 6);
    push_keyword(&mut v, "order xanax", 8);
    push_keyword(&mut v, "painkiller", 3);
    push_keyword(&mut v, "recreational drug", 5);
    push_keyword(&mut v, "substance abuse", 5);
    push_keyword(&mut v, "overdose", 7);
    push_keyword(&mut v, "narcotic", 7);
    assert(v@.map_values(|k: Keyword| keyword_view(k)) =~= drugs_terms());
    Category { name: String::from_str("drugs"), keywords: v }
}

/// The `gambling` category.
fn gambling_category() -> (r: Category)
    ensures
        category_view(r) == ("gambling"@, gambling_terms()),
{
    let mut v: Vec<Keyword> = Vec::new();
    push_keyword(&mut v, "casino", 7);
    push_keyword(&mut v, "poker", 5);
    push_keyword(&mut v, "bet", 4);
    push_keyword(&mut v, "betting", 6);
    push_keyword(&mut v, "slot machine", 7);
    push_keyword(&mut v, "roulette", 6);
    push_keyword(&mut v, "blackjack", 5);
    push_keyword(&mut v, "lottery", 4);
    push_keyword(&mut v, "gambling", 8);
    push_keyword(&mut v, "online casino", 9);
    push_keyword(&mut v, "sportsbook", 7);
    push_keyword(&mut v, "wagering", 6);
    push_keyword(&mut v, "play for real money", 8);
    push_keyword(&mut v, "jackpot", 5);
    push_keyword(&mut v, "bingo for cash", 6);
    push_keyword(&mut v, "bet online", 7);
    assert(v@.map_values(|k: Keyword| keyword_view(k)) =~= gambling_terms());
    Category { name: String::from_str("gambling"), keywords: v }
}

/// The `profanity` category.
fn profanity_category() -> (r: Category)
    ensures
        category_view(r) == ("profanity"@, profanity_terms()),
{
    let mut v: Vec<Keyword> = Vec::new();
    push_keyword(&mut v, "fuck", 8);
    push_keyword(&mut v, "shit", 6);
    push_keyword(&mut v, "asshole", 6);
    push_keyword(&mut v, "bastard", 5);
    push_keyword(&mut v, "bitch", 6);
    push_keyword(&mut v, "cunt", 10);
    push_keyword(&mut v, "damn", 3);
    push_keyword(&mut v, "dick", 6);
    push_keyword(&mut v, "piss", 4);
    push_keyword(&mut v, "slut", 7);
    push_keyword(&mut v, "whore", 8);
    push_keyword(&mut v, "motherfucker", 9);
    push_keyword(&mut v, "cock", 7);
    push_keyword(&mut v, "bullshit", 5);
    push_keyword(&mut v, "goddamn", 4);
    assert(v@.map_values(|k: Keyword| keyword_view(k)) =~= profanity_terms());
    Category { name: String::from_str("profanity"), keywords: v }
}

/// The lexicon as (name, keywords) pairs.
pub open spec fn categories_view(cs: Seq<Category>) -> Seq<(Seq<char>, Seq<(Seq<char>, nat)>)> {
    cs.map_values(|c: Category| category_view(c))
}

/// Analyzes text content for brand safety against a keyword lexicon.
pub struct BrandSafetyAnalyzer {
    categories: Vec<Category>,
}

impl View for BrandSafetyAnalyzer {
    type V = Seq<(Seq<char>, Seq<(Seq<char>, nat)>)>;

    closed spec fn view(&self) -> Self::V {
        categories_view(self.categories@)
    }
}

/// A keyword found in a text: the keyword, its weight in tenths and its number
/// of disjoint occurrences.
#[derive(Debug, Clone)]
pub struct KeywordHit {
    /// The keyword.
    pub term: String,
    /// Weight in tenths.
    pub weight: u32,
    /// Number of disjoint occurrences.
    pub count: usize,
}

/// The keywords of one category found in a text.
#[derive(Debug, Clone)]
pub struct CategoryHits {
    /// Category name.
    pub name: String,
    /// Keywords found, in lexicon order.
    pub hits: Vec<KeywordHit>,
}

/// The result of scanning a text for the lexicon's keywords.
#[derive(Debug, Clone)]
pub struct ContentScan {
    /// Number of white-space separated words.
    pub word_count: usize,
    /// One entry per category, in lexicon order.
    pub categories: Vec<CategoryHits>,
    /// Up to 50 distinct `category:keyword` terms, in the order found.
    pub flagged_terms: Vec<String>,
}

/// A keyword hit as (term, weight, count).
pub open spec fn hit_view(h: KeywordHit) -> (Seq<char>, nat, nat) {
    (h.term@, h.weight as nat, h.count as nat)
}

/// The hits of a category as (name, hits).
pub open spec fn category_hits_view(c: CategoryHits) -> (Seq<char>, Seq<(Seq<char>, nat, nat)>) {
    (c.name@, c.hits@.map_values(|h: KeywordHit| hit_view(h)))
}

/// A scan as (word count, per-category hits, flagged terms).
pub open spec fn scan_view(s: ContentScan) -> (
    nat,
    Seq<(Seq<char>, Seq<(Seq<char>, nat, nat)>)>,
    Seq<Seq<char>>,
) {
    (
        s.word_count as nat,
        s.categories@.map_values(|c: CategoryHits| category_hits_view(c)),
        s.flagged_terms@.map_values(|t: String| t@),
    )
}

/// The keywords of `kws` that occur in `text`, in order, each with its weight
/// and its number of disjoint occurrences.
pub open spec fn keyword_hits(text: Seq<char>, kws: Seq<(Seq<char>, nat)>) -> Seq<(Seq<char>, nat, nat)>
    decreases kws.len(),
{
    if kws.len() == 0 {
        Seq::empty()
    } else {
        let prev = keyword_hits(text, kws.drop_last());
        let k = kws.last();
        if contains(text, k.0) {
            prev.push((k.0, k.1, match_count(text, k.0)))
        } else {
            prev
        }
    }
}

/// `flags` with `term` added, unless it already holds 50 terms or `term`.
pub open spec fn add_flag(flags: Seq<Seq<char>>, term: Seq<char>) -> Seq<Seq<char>> {
    if flags.len() < 50 && !flags.contains(term) {
        flags.push(term)
    } else {
        flags
    }
}

/// `flags` after flagging, in order, each keyword of `kws` that occurs in `text`
/// as `name:keyword`.
pub open spec fn flag_keywords(flags: Seq<Seq<char>>, name: Seq<char>, text: Seq<char>, kws: Seq<(Seq<char>, nat)>) -> Seq<Seq<char>>
    decreases kws.len(),
{
    if kws.len() == 0 {
        flags
    } else {
        let prev = flag_keywords(flags, name, text, kws.drop_last());
        if contains(text, kws.last().0) {
            add_flag(prev, name + ":"@ + kws.last().0)
        } else {
            prev
        }
    }
}

/// The flagged terms after scanning `text` for the categories `cats` in order.
pub open spec fn flag_categories(text: Seq<char>, cats: Seq<(Seq<char>, Seq<(Seq<char>, nat)>)>) -> Seq<Seq<char>>
    decreases cats.len(),
{
    if cats.len() == 0 {
        Seq::empty()
    } else {
        flag_keywords(flag_categories(text, cats.drop_last()), cats.last().0, text, cats.last().1)
    }
}

/// The hits of one category in a text, as (name, hits).
pub open spec fn category_scan(text: Seq<char>, c: (Seq<char>, Seq<(Seq<char>, nat)>)) -> (
    Seq<char>,
    Seq<(Seq<char>, nat, nat)>,
) {
    (c.0, keyword_hits(text, c.1))
}

/// The scan of a lower-cased text against the lexicon.
pub open spec fn scan_spec(text: Seq<char>) -> (
    nat,
    Seq<(Seq<char>, Seq<(Seq<char>, nat, nat)>)>,
    Seq<Seq<char>>,
) {
    (
        word_count(text),
        lexicon().map_values(|c: (Seq<char>, Seq<(Seq<char>, nat)>)| category_scan(text, c)),
        flag_categories(text, lexicon()),
    )
}

/// Tests whether `flags` holds a term with the characters of `t`.
fn holds_term(flags: &Vec<String>, t: &String) -> (r: bool)
    ensures
        r == flags@.map_values(|f: String| f@).contains(t@),
{
    let mut i: usize = 0;
    while i < flags.len()
        invariant
            i <= flags@.len(),
            forall|k: int| 0 <= k < i ==> flags@[k]@ != t@,
        decreases flags@.len() - i,
    {
        if flags[i] == *t {
            assert(flags@.map_values(|f: String| f@)[i as int] == t@);
            return true;
        }
        i = i + 1;
    }
    false
}

impl BrandSafetyAnalyzer {
    #[verifier::type_invariant]
    closed spec fn holds_lexicon(self) -> bool {
        self@ == lexicon()
    }

    /// Creates an analyzer with the lexicon of six categories; every keyword is
    /// non-empty lower-case ASCII.
    pub fn new() -> (r: Self)
        ensures
            r@ == lexicon(),
            forall|i: int, j: int|
                0 <= i < r@.len() && 0 <= j < r@[i].1.len() ==> #[trigger] r@[i].1[j].0.len() > 0
                    && is_lower_ascii(r@[i].1[j].0),
    {
        proof {
            lemma_lexicon_terms_nonempty();
        }
        let mut categories: Vec<Category> = Vec::new();
        categories.push(adult_category());
        categories.push(violence_category());
        categories.push(hate_speech_category());
        categories.push(drugs_category());
        categories.push(gambling_category());
        categories.push(profanity_category());
        assert(categories_view(categories@) =~= lexicon());
        BrandSafetyAnalyzer { categories }
    }

    /// The categories with their keywords.
    pub fn categories(&self) -> (r: &Vec<Category>)
        ensures
            categories_view(r@) == self@,
            self@ == lexicon(),
    {
        proof {
            use_type_invariant(self);
        }
        &self.categories
    }

    /// Scans a text: lower-cases it, then scans the lower-cased text.
    pub fn scan(&self, content: &str) -> (r: ContentScan)
        ensures
            scan_view(r) == scan_spec(lowercase(content@)),
            is_ascii_text(content@) ==> scan_view(r) == scan_spec(ascii_lowercase(content@)),
    {
        let lower = to_lowercase(content);
        self.scan_lowercase(lower.as_str())
    }

    /// Scans a lower-cased text for the lexicon's keywords.
    pub fn scan_lowercase(&self, lower: &str) -> (r: ContentScan)
        ensures
            scan_view(r) == scan_spec(lower@),
    {
        proof {
            use_type_invariant(self);
            lemma_lexicon_terms_nonempty();
        }
        let text = chars_of(lower);
        let word_count = count_words(&text);
        let mut flags: Vec<String> = Vec::new();
        let mut cats: Vec<CategoryHits> = Vec::new();
        let n = self.categories.len();
        let ghost lex = lexicon();
        let mut i: usize = 0;
        assert(lex.take(0) =~= Seq::<(Seq<char>, Seq<(Seq<char>, nat)>)>::empty());
        while i < n
            invariant
                i <= n == self.categories@.len() == lex.len(),
                lex == lexicon(),
                categories_view(self.categories@) == lex,
                text@ == lower@,
                forall|a: int, b: int|
                    0 <= a < lex.len() && 0 <= b < lex[a].1.len() ==> #[trigger] lex[a].1[b].0.len() > 0,
                cats@.len() == i,
                forall|k: int| 0 <= k < i ==> category_hits_view(#[trigger] cats@[k]) == category_scan(lower@, lex[k]),
                flags@.map_values(|t: String| t@) == flag_categories(lower@, lex.take(i as int)),
            decreases n - i,
        {
            let cat = &self.categories[i];
            let ghost cv = lex[i as int];
            assert(category_view(*cat) == cv);
            let m = cat.keywords.len();
            let mut hits: Vec<KeywordHit> = Vec::new();
            let ghost flags_before = flags@.map_values(|t: String| t@);
            let mut j: usize = 0;
            assert(cv.1.take(0) =~= Seq::<(Seq<char>, nat)>::empty());
            while j < m
                invariant
                    j <= m == cat.keywords@.len() == cv.1.len(),
                    cv == category_view(*cat),
                    text@ == lower@,
                    forall|b: int| 0 <= b < cv.1.len() ==> #[trigger] cv.1[b].0.len() > 0,
                    hits@.map_values(|h: KeywordHit| hit_view(h)) == keyword_hits(lower@, cv.1.take(j as int)),
                    flags@.map_values(|t: String| t@) == flag_keywords(flags_before, cv.0, lower@, cv.1.take(j as int)),
                decreases m - j,
            {
                let kw = &cat.keywords[j];
                assert(keyword_view(*kw) == cv.1[j as int]);
                assert(cv.1.take(j + 1).drop_last() =~= cv.1.take(j as int));
                assert(cv.1.take(j + 1).last() == cv.1[j as int]);
                let term = chars_of(kw.term.as_str());
                if contains_exec(&text, &term) {
                    assert(cv.1[j as int].0.len() > 0);
                    let count = count_matches(&text, &term);
                    let ghost hits_before = hits@.map_values(|h: KeywordHit| hit_view(h));
                    hits.push(KeywordHit { term: kw.term.clone(), weight: kw.weight, count });
                    assert(hits@.map_values(|h: KeywordHit| hit_view(h)) =~= hits_before.push(
                        (kw.term@, kw.weight as nat, count as nat),
                    ));
                    if flags.len() < 50 {
                        let mut t = cat.name.clone();
                        t.append(":");
                        t.append(kw.term.as_str());
                        if !holds_term(&flags, &t) {
                            let ghost fb = flags@.map_values(|x: String| x@);
                            flags.push(t);
                            assert(flags@.map_values(|x: String| x@) =~= fb.push(t@));
                        }
                    }
                }
                j = j + 1;
            }
            assert(cv.1.take(m as int) =~= cv.1);
            let name = cat.name.clone();
            let entry = CategoryHits { name, hits };
            assert(category_hits_view(entry) == category_scan(lower@, cv));
            cats.push(entry);
            assert(lex.take(i + 1).drop_last() =~= lex.take(i as int));
            i = i + 1;
        }
        assert(lex.take(n as int) =~= lex);
        let r = ContentScan { word_count, categories: cats, flagged_terms: flags };
        assert(r.categories@.map_values(|c: CategoryHits| category_hits_view(c)) =~= lex.map_values(
            |c: (Seq<char>, Seq<(Seq<char>, nat)>)| category_scan(lower@, c),
        ));
        r
    }
}

impl Clone for BrandSafetyAnalyzer {
    /// Every analyzer holds the lexicon, so a fresh one is a copy.
    fn clone(&self) -> (r: Self)
        ensures
            r@ == self@,
    {
        proof {
            use_type_invariant(self);
        }
        Self::new()
    }
}

impl Default for BrandSafetyAnalyzer {
    fn default() -> (r: Self)
        ensures
            r@ == lexicon(),
    {
        Self::new()
    }
}

/// Every keyword reported for a text occurs in it at least once.
pub proof fn lemma_hits_occur(text: Seq<char>, kws: Seq<(Seq<char>, nat)>)
    requires
        forall|j: int| 0 <= j < kws.len() ==> #[trigger] kws[j].0.len() > 0,
    ensures
        forall|k: int|
            0 <= k < keyword_hits(text, kws).len() ==> {
                &&& contains(text, #[trigger] keyword_hits(text, kws)[k].0)
                &&& keyword_hits(text, kws)[k].2 >= 1
            },
    decreases kws.len(),
{
    if kws.len() > 0 {
        let prev = kws.drop_last();
        assert forall|j: int| 0 <= j < prev.len() implies #[trigger] prev[j].0.len() > 0 by {
            assert(prev[j] == kws[j]);
        }
        lemma_hits_occur(text, prev);
        let k = kws.last();
        assert(k.0.len() > 0);
        crate::text::lemma_contains_iff_counted(text, k.0);
        let ph = keyword_hits(text, prev);
        let h = keyword_hits(text, kws);
        assert forall|m: int| 0 <= m < h.len() implies contains(text, #[trigger] h[m].0) && h[m].2 >= 1 by {
            if m < ph.len() {
                assert(h[m] == ph[m]);
            }
        }
    }
}

/// Flagging keeps at most 50 terms and never repeats one.
proof fn lemma_flag_keywords_bounded(
    flags: Seq<Seq<char>>,
    name: Seq<char>,
    text: Seq<char>,
    kws: Seq<(Seq<char>, nat)>,
)
    requires
        flags.len() <= 50,
        flags.no_duplicates(),
    ensures
        flag_keywords(flags, name, text, kws).len() <= 50,
        flag_keywords(flags, name, text, kws).no_duplicates(),
    decreases kws.len(),
{
    if kws.len() > 0 {
        lemma_flag_keywords_bounded(flags, name, text, kws.drop_last());
    }
}

/// The flagged terms of a scan are at most 50 and never repeat.
pub proof fn lemma_flags_bounded_distinct(text: Seq<char>, cats: Seq<(Seq<char>, Seq<(Seq<char>, nat)>)>)
    ensures
        flag_categories(text, cats).len() <= 50,
        flag_categories(text, cats).no_duplicates(),
    decreases cats.len(),
{
    if cats.len() > 0 {
        lemma_flags_bounded_distinct(text, cats.drop_last());
        lemma_flag_keywords_bounded(
            flag_categories(text, cats.drop_last()),
            cats.last().0,
            text,
            cats.last().1,
        );
    }
}

/// Keywords that do not occur leave the hits empty.
proof fn lemma_no_keyword_no_hits(text: Seq<char>, kws: Seq<(Seq<char>, nat)>)
    requires
        forall|j: int| 0 <= j < kws.len() ==> !contains(text, #[trigger] kws[j].0),
    ensures
        keyword_hits(text, kws) == Seq::<(Seq<char>, nat, nat)>::empty(),
    decreases kws.len(),
{
    if kws.len() > 0 {
        let prev = kws.drop_last();
        assert forall|j: int| 0 <= j < prev.len() implies !contains(text, #[trigger] prev[j].0) by {
            assert(prev[j] == kws[j]);
        }
        lemma_no_keyword_no_hits(text, prev);
        assert(!contains(text, kws[kws.len() - 1].0));
    }
}

/// Keywords that do not occur flag nothing.
proof fn lemma_no_keyword_no_flags(
    flags: Seq<Seq<char>>,
    name: Seq<char>,
    text: Seq<char>,
    kws: Seq<(Seq<char>, nat)>,
)
    requires
        forall|j: int| 0 <= j < kws.len() ==> !contains(text, #[trigger] kws[j].0),
    ensures
        flag_keywords(flags, name, text, kws) == flags,
    decreases kws.len(),
{
    if kws.len() > 0 {
        let prev = kws.drop_last();
        assert forall|j: int| 0 <= j < prev.len() implies !contains(text, #[trigger] prev[j].0) by {
            assert(prev[j] == kws[j]);
        }
        lemma_no_keyword_no_flags(flags, name, text, prev);
        assert(!contains(text, kws[kws.len() - 1].0));
    }
}

/// A text in which no keyword of the lexicon occurs has no hits in any
/// category and no flagged terms.
pub proof fn lemma_keyword_free_text_is_clean(text: Seq<char>)
    requires
        forall|i: int, j: int|
            0 <= i < lexicon().len() && 0 <= j < lexicon()[i].1.len() ==> !contains(
                text,
                #[trigger] lexicon()[i].1[j].0,
            ),
    ensures
        forall|i: int|
            0 <= i < scan_spec(text).1.len() ==> #[trigger] scan_spec(text).1[i].1 == Seq::<
                (Seq<char>, nat, nat),
            >::empty(),
        scan_spec(text).2 == Seq::<Seq<char>>::empty(),
{
    let lex = lexicon();
    assert forall|i: int| 0 <= i < scan_spec(text).1.len() implies #[trigger] scan_spec(text).1[i].1
        == Seq::<(Seq<char>, nat, nat)>::empty() by {
        assert forall|j: int| 0 <= j < lex[i].1.len() implies !contains(text, #[trigger] lex[i].1[j].0) by {
            assert(!contains(text, lexicon()[i].1[j].0));
        }
        lemma_no_keyword_no_hits(text, lex[i].1);
    }
    lemma_flag_categories_clean(text, lex);
}

/// Categories none of whose keywords occur flag nothing.
proof fn lemma_flag_categories_clean(text: Seq<char>, cats: Seq<(Seq<char>, Seq<(Seq<char>, nat)>)>)
    requires
        forall|i: int, j: int|
            0 <= i < cats.len() && 0 <= j < cats[i].1.len() ==> !contains(text, #[trigger] cats[i].1[j].0),
    ensures
        flag_categories(text, cats) == Seq::<Seq<char>>::empty(),
    decreases cats.len(),
{
    if cats.len() > 0 {
        let prev = cats.drop_last();
        assert forall|i: int, j: int| 0 <= i < prev.len() && 0 <= j < prev[i].1.len() implies !contains(
            text,
            #[trigger] prev[i].1[j].0,
        ) by {
            assert(prev[i] == cats[i]);
        }
        lemma_flag_categories_clean(text, prev);
        let last = cats.last();
        assert forall|j: int| 0 <= j < last.1.len() implies !contains(text, #[trigger] last.1[j].0) by {
            assert(last == cats[cats.len() - 1]);
        }
        lemma_no_keyword_no_flags(Seq::<Seq<char>>::empty(), last.0, text, last.1);
    }
}

/// ASCII case does not matter: two ASCII contents that differ only in the case
/// of their letters scan the same.
pub proof fn lemma_ascii_case_does_not_matter(a: Seq<char>, b: Seq<char>)
    requires
        is_ascii_text(a),
        is_ascii_text(b),
        eq_ignore_ascii_case(a, b),
    ensures
        scan_spec(ascii_lowercase(a)) == scan_spec(ascii_lowercase(b)),
{
    assert(ascii_lowercase(a) =~= ascii_lowercase(b));
}

/// Empty content has no words, no hits and no flagged terms.
pub proof fn lemma_empty_content_is_clean()
    ensures
        scan_spec(Seq::<char>::empty()).0 == 0,
        forall|i: int|
            0 <= i < scan_spec(Seq::<char>::empty()).1.len() ==> #[trigger] scan_spec(
                Seq::<char>::empty(),
            ).1[i].1 == Seq::<(Seq<char>, nat, nat)>::empty(),
        scan_spec(Seq::<char>::empty()).2 == Seq::<Seq<char>>::empty(),
{
    lemma_lexicon_terms_nonempty();
    assert forall|i: int, j: int|
        0 <= i < lexicon().len() && 0 <= j < lexicon()[i].1.len() implies !contains(
        Seq::<char>::empty(),
        #[trigger] lexicon()[i].1[j].0,
    ) by {
        crate::text::lemma_empty_text_holds_nothing(lexicon()[i].1[j].0);
    }
    lemma_keyword_free_text_is_clean(Seq::<char>::empty());
}

} // verus!
