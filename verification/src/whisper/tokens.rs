//! The tokens that steer Whisper's decoder, looked up in a tokenizer's vocabulary.

use vstd::prelude::*;

use tokenizers::decoders::DecoderWrapper;

use crate::text::decimal;
use crate::text::decimal_string;

verus! {

/// The tokenizer of the `tokenizers` crate.
#[verifier::external_type_specification]
#[verifier::external_body]
pub struct ExTokenizer(tokenizers::Tokenizer);

/// The vocabulary of a tokenizer: the tokens it knows, with their ids.
pub uninterp spec fn vocabulary(tokenizer: tokenizers::Tokenizer) -> Map<Seq<char>, u32>;

/// `Tokenizer::token_to_id`: the id of `token`, added tokens before those of the
/// model, or nothing where the tokenizer does not know the token.
#[verifier::external_body]
fn token_to_id(tokenizer: &tokenizers::Tokenizer, token: &str) -> (id: Option<u32>)
    ensures
        id == id_of(vocabulary(*tokenizer), token@),
{
    tokenizer.token_to_id(token)
}

/// The id of `token` in `vocab`.
pub open spec fn id_of(vocab: Map<Seq<char>, u32>, token: Seq<char>) -> Option<u32> {
    if vocab.dom().contains(token) {
        Some(vocab[token])
    } else {
        None
    }
}

/// What is said of a token that is not in the vocabulary.
pub open spec fn unknown_token(token: Seq<char>) -> Seq<char> {
    "no token id for "@ + token
}

/// The id of `token`, or a message that names it.
pub fn token_id(tokenizer: &tokenizers::Tokenizer, token: &str) -> (res: Result<u32, String>)
    ensures
        match res {
            Ok(id) => id_of(vocabulary(*tokenizer), token@) == Some(id),
            Err(e) => id_of(vocabulary(*tokenizer), token@) is None && e@ == unknown_token(token@),
        },
{
    match token_to_id(tokenizer, token) {
        Some(id) => Ok(id),
        None => {
            let mut e = "no token id for ".to_owned();
            e.append(token);
            Err(e)
        },
    }
}

/// The decoders that a tokenizer can have.
#[derive(Debug, Clone, Copy, PartialEq, Eq, Structural)]
pub enum DecoderKind {
    Absent,
    Bpe,
    ByteLevel,
    WordPiece,
    Metaspace,
    Ctc,
    Sequence,
    Replace,
    Fuse,
    Strip,
    ByteFallback,
}

/// The decoder of a tokenizer.
pub uninterp spec fn decoder_of(tokenizer: tokenizers::Tokenizer) -> DecoderKind;

/// `Tokenizer::get_decoder`: which decoder a tokenizer has, if it has one.
#[verifier::external_body]
fn decoder_kind(tokenizer: &tokenizers::Tokenizer) -> (kind: DecoderKind)
    ensures
        kind == decoder_of(*tokenizer),
{
    match tokenizer.get_decoder() {
        None => DecoderKind::Absent,
        Some(DecoderWrapper::BPE(_)) => DecoderKind::Bpe,
        Some(DecoderWrapper::ByteLevel(_)) => DecoderKind::ByteLevel,
        Some(DecoderWrapper::WordPiece(_)) => DecoderKind::WordPiece,
        Some(DecoderWrapper::Metaspace(_)) => DecoderKind::Metaspace,
        Some(DecoderWrapper::CTC(_)) => DecoderKind::Ctc,
        Some(DecoderWrapper::Sequence(_)) => DecoderKind::Sequence,
        Some(DecoderWrapper::Replace(_)) => DecoderKind::Replace,
        Some(DecoderWrapper::Fuse(_)) => DecoderKind::Fuse,
        Some(DecoderWrapper::Strip(_)) => DecoderKind::Strip,
        Some(DecoderWrapper::ByteFallback(_)) => DecoderKind::ByteFallback,
    }
}

/// Whether a decoder takes whatever tokens it is given. The decoder of the first byte
/// pair encodings panics without tokens, and the one that strips characters panics on
/// short tokens. The one that replaces a pattern panics, or does not return, where its
/// pattern gives matches that start before the end of the match before them, and the
/// pattern cannot be looked at. A sequence of decoders may hold any of these.
pub open spec fn takes_any_tokens(kind: DecoderKind) -> bool {
    !(kind is Bpe || kind is Strip || kind is Replace || kind is Sequence)
}

/// What `Tokenizer::decode` makes of token ids, special tokens left out: the text, or
/// the text of the error.
pub uninterp spec fn decoded_text(
    tokenizer: tokenizers::Tokenizer,
    ids: Seq<u32>,
) -> Result<Seq<char>, Seq<char>>;

/// What was decoded, with texts as sequences of characters.
pub open spec fn text_view(res: Result<String, String>) -> Result<Seq<char>, Seq<char>> {
    match res {
        Ok(text) => Ok(text@),
        Err(e) => Err(e@),
    }
}

/// `Tokenizer::decode`, without special tokens, where the decoder takes any tokens. The
/// result is `decoded_text` of the tokenizer and the ids.
#[verifier::external_body]
pub(crate) fn decode_ids(tokenizer: &tokenizers::Tokenizer, ids: &Vec<u32>) -> (res: Result<
    String,
    String,
>)
    requires
        takes_any_tokens(decoder_of(*tokenizer)),
    ensures
        text_view(res) == decoded_text(*tokenizer, ids@),
{
    match tokenizer.decode(ids, true) {
        Ok(text) => Ok(text),
        Err(e) => Err(e.to_string()),
    }
}

/// Tests whether a tokenizer's decoder takes whatever tokens it is given.
pub fn decoder_takes_any_tokens(tokenizer: &tokenizers::Tokenizer) -> (r: bool)
    ensures
        r == takes_any_tokens(decoder_of(*tokenizer)),
{
    match decoder_kind(tokenizer) {
        DecoderKind::Bpe
        | DecoderKind::Strip
        | DecoderKind::Replace
        | DecoderKind::Sequence => false,
        _ => true,
    }
}

/// How many languages Whisper supports.
pub const LANGUAGES: usize = 99;

/// The code of Whisper's language `i`, for `i` below `LANGUAGES`.
pub open spec fn language_code(i: usize) -> Seq<char> {
    match i {
        0 => "en"@,
        1 => "zh"@,
        2 => "de"@,
        3 => "es"@,
        4 => "ru"@,
        5 => "ko"@,
        6 => "fr"@,
        7 => "ja"@,
        8 => "pt"@,
        9 => "tr"@,
        10 => "pl"@,
        11 => "ca"@,
        12 => "nl"@,
        13 => "ar"@,
        14 => "sv"@,
        15 => "it"@,
        16 => "id"@,
        17 => "hi"@,
        18 => "fi"@,
        19 => "vi"@,
        20 => "he"@,
        21 => "uk"@,
        22 => "el"@,
        23 => "ms"@,
        24 => "cs"@,
        25 => "ro"@,
        26 => "da"@,
        27 => "hu"@,
        28 => "ta"@,
        29 => "no"@,
        30 => "th"@,
        31 => "ur"@,
        32 => "hr"@,
        33 => "bg"@,
        34 => "lt"@,
        35 => "la"@,
        36 => "mi"@,
        37 => "ml"@,
        38 => "cy"@,
        39 => "sk"@,
        40 => "te"@,
        41 => "fa"@,
        42 => "lv"@,
        43 => "bn"@,
        44 => "sr"@,
        45 => "az"@,
        46 => "sl"@,
        47 => "kn"@,
        48 => "et"@,
        49 => "mk"@,
        50 => "br"@,
        51 => "eu"@,
        52 => "is"@,
        53 => "hy"@,
        54 => "ne"@,
        55 => "mn"@,
        56 => "bs"@,
        57 => "kk"@,
        58 => "sq"@,
        59 => "sw"@,
        60 => "gl"@,
        61 => "mr"@,
        62 => "pa"@,
        63 => "si"@,
        64 => "km"@,
        65 => "sn"@,
        66 => "yo"@,
        67 => "so"@,
        68 => "af"@,
        69 => "oc"@,
        70 => "ka"@,
        71 => "be"@,
        72 => "tg"@,
        73 => "sd"@,
        74 => "gu"@,
        75 => "am"@,
        76 => "yi"@,
        77 => "lo"@,
        78 => "uz"@,
        79 => "fo"@,
        80 => "ht"@,
        81 => "ps"@,
        82 => "tk"@,
        83 => "nn"@,
        84 => "mt"@,
        85 => "sa"@,
        86 => "lb"@,
        87 => "my"@,
        88 => "bo"@,
        89 => "tl"@,
        90 => "mg"@,
        91 => "as"@,
        92 => "tt"@,
        93 => "haw"@,
        94 => "ln"@,
        95 => "ha"@,
        96 => "ba"@,
        97 => "jw"@,
        _ => "su"@,
    }
}

fn code(i: usize) -> (s: &'static str)
    requires
        i < LANGUAGES,
    ensures
        s@ == language_code(i),
{
    match i {
        0 => "en",
        1 => "zh",
        2 => "de",
        3 => "es",
        4 => "ru",
        5 => "ko",
        6 => "fr",
        7 => "ja",
        8 => "pt",
        9 => "tr",
        10 => "pl",
        11 => "ca",
        12 => "nl",
        13 => "ar",
        14 => "sv",
        15 => "it",
        16 => "id",
        17 => "hi",
        18 => "fi",
        19 => "vi",
        20 => "he",
        21 => "uk",
        22 => "el",
        23 => "ms",
        24 => "cs",
        25 => "ro",
        26 => "da",
        27 => "hu",
        28 => "ta",
        29 => "no",
        30 => "th",
        31 => "ur",
        32 => "hr",
        33 => "bg",
        34 => "lt",
        35 => "la",
        36 => "mi",
        37 => "ml",
        38 => "cy",
        39 => "sk",
        40 => "te",
        41 => "fa",
        42 => "lv",
        43 => "bn",
        44 => "sr",
        45 => "az",
        46 => "sl",
        47 => "kn",
        48 => "et",
        49 => "mk",
        50 => "br",
        51 => "eu",
        52 => "is",
        53 => "hy",
        54 => "ne",
        55 => "mn",
        56 => "bs",
        57 => "kk",
        58 => "sq",
        59 => "sw",
        60 => "gl",
        61 => "mr",
        62 => "pa",
        63 => "si",
        64 => "km",
        65 => "sn",
        66 => "yo",
        67 => "so",
        68 => "af",
        69 => "oc",
        70 => "ka",
        71 => "be",
        72 => "tg",
        73 => "sd",
        74 => "gu",
        75 => "am",
        76 => "yi",
        77 => "lo",
        78 => "uz",
        79 => "fo",
        80 => "ht",
        81 => "ps",
        82 => "tk",
        83 => "nn",
        84 => "mt",
        85 => "sa",
        86 => "lb",
        87 => "my",
        88 => "bo",
        89 => "tl",
        90 => "mg",
        91 => "as",
        92 => "tt",
        93 => "haw",
        94 => "ln",
        95 => "ha",
        96 => "ba",
        97 => "jw",
        _ => "su",
    }
}

/// The token that stands for Whisper's language `i`.
pub open spec fn language_token(i: usize) -> Seq<char> {
    "<|"@ + language_code(i) + "|>"@
}

/// The ids of the tokens of the first `n` languages, without the languages that
/// have no token in `vocab`.
pub open spec fn language_ids(vocab: Map<Seq<char>, u32>, n: usize) -> Seq<u32>
    decreases n,
{
    if n == 0 {
        Seq::empty()
    } else {
        match id_of(vocab, language_token((n - 1) as usize)) {
            Some(id) => language_ids(vocab, (n - 1) as usize).push(id),
            None => language_ids(vocab, (n - 1) as usize),
        }
    }
}

/// The ids of all language tokens of a tokenizer, in Whisper's order of languages.
/// An English-only tokenizer has none.
pub fn language_token_ids(tokenizer: &tokenizers::Tokenizer) -> (ids: Vec<u32>)
    ensures
        ids@ == language_ids(vocabulary(*tokenizer), LANGUAGES),
{
    let mut ids: Vec<u32> = Vec::new();
    let mut i: usize = 0;
    while i < LANGUAGES
        invariant
            i <= LANGUAGES,
            ids@ == language_ids(vocabulary(*tokenizer), i),
        decreases LANGUAGES - i,
    {
        let mut token = "<|".to_owned();
        token.append(code(i));
        token.append("|>");
        if let Some(id) = token_to_id(tokenizer, token.as_str()) {
            ids.push(id);
        }
        i += 1;
    }
    ids
}

/// An English-only tokenizer, one that knows no language token, is exactly one
/// without language ids.
pub proof fn law_no_language_ids_without_language_tokens(vocab: Map<Seq<char>, u32>, n: usize)
    ensures
        language_ids(vocab, n).len() == 0 <==> forall|i: usize|
            0 <= i < n ==> !vocab.dom().contains(#[trigger] language_token(i)),
    decreases n,
{
    if n > 0 {
        law_no_language_ids_without_language_tokens(vocab, (n - 1) as usize);
        assert(vocab.dom().contains(language_token((n - 1) as usize)) || !vocab.dom().contains(
            language_token((n - 1) as usize),
        ));
    }
}

/// How the model spells its special tokens. `no_speech` lists the spellings that
/// different tokenizers have for silence, the preferred one first.
pub struct TokenNames<'a> {
    pub sot: &'a str,
    pub eot: &'a str,
    pub transcribe: &'a str,
    pub no_timestamps: &'a str,
    pub no_speech: Vec<&'a str>,
}

/// The token in front of a prompt taken from what was said before.
pub open spec fn prev_name() -> Seq<char> {
    "<|startofprev|>"@
}

/// The first of `names` that `vocab` knows.
pub open spec fn first_known(vocab: Map<Seq<char>, u32>, names: Seq<&str>) -> Option<u32>
    decreases names.len(),
{
    if names.len() == 0 {
        None
    } else {
        match id_of(vocab, names[0]@) {
            Some(id) => Some(id),
            None => first_known(vocab, names.drop_first()),
        }
    }
}

fn first_known_id(tokenizer: &tokenizers::Tokenizer, names: &Vec<&str>) -> (id: Option<u32>)
    ensures
        id == first_known(vocabulary(*tokenizer), names@),
{
    let mut i: usize = 0;
    assert(names@.skip(0) =~= names@);
    while i < names.len()
        invariant
            i <= names.len(),
            first_known(vocabulary(*tokenizer), names@) == first_known(
                vocabulary(*tokenizer),
                names@.skip(i as int),
            ),
        decreases names.len() - i,
    {
        assert(names@.skip(i as int).drop_first() =~= names@.skip(i + 1));
        if let Some(id) = token_to_id(tokenizer, names[i]) {
            return Some(id);
        }
        i += 1;
    }
    None
}

/// The ids of the special tokens, and of the language tokens as far as there are any.
#[derive(Debug)]
pub struct SpecialTokens {
    pub sot: u32,
    pub eot: u32,
    pub transcribe: u32,
    pub no_timestamps: u32,
    pub no_speech: u32,
    pub prev: u32,
    pub languages: Vec<u32>,
}

/// What is wrong with a vocabulary: the first of the special tokens that it lacks.
pub open spec fn missing_token(vocab: Map<Seq<char>, u32>, names: TokenNames<'_>) -> Option<
    Seq<char>,
> {
    if !vocab.dom().contains(names.sot@) {
        Some(unknown_token(names.sot@))
    } else if !vocab.dom().contains(names.eot@) {
        Some(unknown_token(names.eot@))
    } else if !vocab.dom().contains(names.transcribe@) {
        Some(unknown_token(names.transcribe@))
    } else if !vocab.dom().contains(names.no_timestamps@) {
        Some(unknown_token(names.no_timestamps@))
    } else if first_known(vocab, names.no_speech@) is None {
        Some("no no-speech token found in tokenizer vocab"@)
    } else if !vocab.dom().contains(prev_name()) {
        Some(unknown_token(prev_name()))
    } else {
        None
    }
}

impl SpecialTokens {
    /// Looks up every token that decoding needs. Fails with the first one that the
    /// tokenizer lacks; language tokens may be lacking.
    pub fn resolve(tokenizer: &tokenizers::Tokenizer, names: &TokenNames<'_>) -> (res: Result<
        SpecialTokens,
        String,
    >)
        ensures
            match res {
                Ok(tokens) => {
                    let vocab = vocabulary(*tokenizer);
                    &&& missing_token(vocab, *names) is None
                    &&& tokens.sot == vocab[names.sot@]
                    &&& tokens.eot == vocab[names.eot@]
                    &&& tokens.transcribe == vocab[names.transcribe@]
                    &&& tokens.no_timestamps == vocab[names.no_timestamps@]
                    &&& first_known(vocab, names.no_speech@) == Some(tokens.no_speech)
                    &&& tokens.prev == vocab[prev_name()]
                    &&& tokens.languages@ == language_ids(vocab, LANGUAGES)
                },
                Err(e) => missing_token(vocabulary(*tokenizer), *names) == Some(e@),
            },
    {
        let sot = match token_id(tokenizer, names.sot) {
            Ok(id) => id,
            Err(e) => return Err(e),
        };
        let eot = match token_id(tokenizer, names.eot) {
            Ok(id) => id,
            Err(e) => return Err(e),
        };
        let transcribe = match token_id(tokenizer, names.transcribe) {
            Ok(id) => id,
            Err(e) => return Err(e),
        };
        let no_timestamps = match token_id(tokenizer, names.no_timestamps) {
            Ok(id) => id,
            Err(e) => return Err(e),
        };
        let no_speech = match first_known_id(tokenizer, &names.no_speech) {
            Some(id) => id,
            None => return Err("no no-speech token found in tokenizer vocab".to_owned()),
        };
        let prev = match token_id(tokenizer, "<|startofprev|>") {
            Ok(id) => id,
            Err(e) => return Err(e),
        };
        let languages = language_token_ids(tokenizer);
        Ok(SpecialTokens { sot, eot, transcribe, no_timestamps, no_speech, prev, languages })
    }
}

/// How many mel bins the filter bank has that the transcriber works with.
pub const MEL_BINS: usize = 80;

/// What is said of a model that wants `bins` mel bins.
pub open spec fn unsupported_mel_bins(bins: nat) -> Seq<char> {
    "model expects "@ + decimal(bins)
        + " mel bins, but only the bundled 80-bin filter bank is supported"@
}

/// Accepts a model that wants as many mel bins as the filter bank has.
pub fn check_mel_bins(bins: usize) -> (res: Result<(), String>)
    ensures
        res is Ok <==> bins == MEL_BINS,
        res matches Err(e) ==> e@ == unsupported_mel_bins(bins as nat),
{
    if bins == MEL_BINS {
        Ok(())
    } else {
        let mut e = "model expects ".to_owned();
        e.append(decimal_string(bins as u64).as_str());
        e.append(" mel bins, but only the bundled 80-bin filter bank is supported");
        Err(e)
    }
}

/// Which tokens of a vocabulary are never to be generated: one mark for each token
/// id below `vocab_size`, taken as a 32-bit number, set for the ids in `suppress`.
pub fn suppress_mask(vocab_size: usize, suppress: &Vec<u32>) -> (mask: Vec<bool>)
    ensures
        mask.len() == vocab_size as u32,
        forall|i: int| 0 <= i < mask.len() ==> #[trigger] mask[i] == suppress@.contains(i as u32),
{
    let n: u32 = #[verifier::truncate]
    (vocab_size as u32);
    let mut mask: Vec<bool> = Vec::new();
    let mut i: u32 = 0;
    while i < n
        invariant
            i <= n,
            mask.len() == i,
            forall|k: int| 0 <= k < mask.len() ==> #[trigger] mask[k] == suppress@.contains(k as u32),
        decreases n - i,
    {
        let mut found: bool = false;
        let mut j: usize = 0;
        while j < suppress.len() && !found
            invariant
                j <= suppress.len(),
                found ==> suppress@.contains(i),
                !found ==> forall|k: int| 0 <= k < j ==> suppress[k] != i,
            decreases suppress.len() - j, (if found { 0int } else { 1int }),
        {
            if suppress[j] == i {
                found = true;
                assert(suppress@[j as int] == i);
            } else {
                j += 1;
            }
        }
        mask.push(found);
        i += 1;
    }
    mask
}

/// The tokens of the 99 languages, in Whisper's order.
pub proof fn law_language_tokens()
    ensures
        LANGUAGES == 99,
        language_token(0) == "<|"@ + "en"@ + "|>"@,
        language_token(1) == "<|"@ + "zh"@ + "|>"@,
        language_token(2) == "<|"@ + "de"@ + "|>"@,
        language_token(3) == "<|"@ + "es"@ + "|>"@,
        language_token(4) == "<|"@ + "ru"@ + "|>"@,
        language_token(5) == "<|"@ + "ko"@ + "|>"@,
        language_token(6) == "<|"@ + "fr"@ + "|>"@,
        language_token(7) == "<|"@ + "ja"@ + "|>"@,
        language_token(8) == "<|"@ + "pt"@ + "|>"@,
        language_token(9) == "<|"@ + "tr"@ + "|>"@,
        language_token(10) == "<|"@ + "pl"@ + "|>"@,
        language_token(11) == "<|"@ + "ca"@ + "|>"@,
        language_token(12) == "<|"@ + "nl"@ + "|>"@,
        language_token(13) == "<|"@ + "ar"@ + "|>"@,
        language_token(14) == "<|"@ + "sv"@ + "|>"@,
        language_token(15) == "<|"@ + "it"@ + "|>"@,
        language_token(16) == "<|"@ + "id"@ + "|>"@,
        language_token(17) == "<|"@ + "hi"@ + "|>"@,
        language_token(18) == "<|"@ + "fi"@ + "|>"@,
        language_token(19) == "<|"@ + "vi"@ + "|>"@,
        language_token(20) == "<|"@ + "he"@ + "|>"@,
        language_token(21) == "<|"@ + "uk"@ + "|>"@,
        language_token(22) == "<|"@ + "el"@ + "|>"@,
        language_token(23) == "<|"@ + "ms"@ + "|>"@,
        language_token(24) == "<|"@ + "cs"@ + "|>"@,
        language_token(25) == "<|"@ + "ro"@ + "|>"@,
        language_token(26) == "<|"@ + "da"@ + "|>"@,
        language_token(27) == "<|"@ + "hu"@ + "|>"@,
        language_token(28) == "<|"@ + "ta"@ + "|>"@,
        language_token(29) == "<|"@ + "no"@ + "|>"@,
        language_token(30) == "<|"@ + "th"@ + "|>"@,
        language_token(31) == "<|"@ + "ur"@ + "|>"@,
        language_token(32) == "<|"@ + "hr"@ + "|>"@,
        language_token(33) == "<|"@ + "bg"@ + "|>"@,
        language_token(34) == "<|"@ + "lt"@ + "|>"@,
        language_token(35) == "<|"@ + "la"@ + "|>"@,
        language_token(36) == "<|"@ + "mi"@ + "|>"@,
        language_token(37) == "<|"@ + "ml"@ + "|>"@,
        language_token(38) == "<|"@ + "cy"@ + "|>"@,
        language_token(39) == "<|"@ + "sk"@ + "|>"@,
        language_token(40) == "<|"@ + "te"@ + "|>"@,
        language_token(41) == "<|"@ + "fa"@ + "|>"@,
        language_token(42) == "<|"@ + "lv"@ + "|>"@,
        language_token(43) == "<|"@ + "bn"@ + "|>"@,
        language_token(44) == "<|"@ + "sr"@ + "|>"@,
        language_token(45) == "<|"@ + "az"@ + "|>"@,
        language_token(46) == "<|"@ + "sl"@ + "|>"@,
        language_token(47) == "<|"@ + "kn"@ + "|>"@,
        language_token(48) == "<|"@ + "et"@ + "|>"@,
        language_token(49) == "<|"@ + "mk"@ + "|>"@,
        language_token(50) == "<|"@ + "br"@ + "|>"@,
        language_token(51) == "<|"@ + "eu"@ + "|>"@,
        language_token(52) == "<|"@ + "is"@ + "|>"@,
        language_token(53) == "<|"@ + "hy"@ + "|>"@,
        language_token(54) == "<|"@ + "ne"@ + "|>"@,
        language_token(55) == "<|"@ + "mn"@ + "|>"@,
        language_token(56) == "<|"@ + "bs"@ + "|>"@,
        language_token(57) == "<|"@ + "kk"@ + "|>"@,
        language_token(58) == "<|"@ + "sq"@ + "|>"@,
        language_token(59) == "<|"@ + "sw"@ + "|>"@,
        language_token(60) == "<|"@ + "gl"@ + "|>"@,
        language_token(61) == "<|"@ + "mr"@ + "|>"@,
        language_token(62) == "<|"@ + "pa"@ + "|>"@,
        language_token(63) == "<|"@ + "si"@ + "|>"@,
        language_token(64) == "<|"@ + "km"@ + "|>"@,
        language_token(65) == "<|"@ + "sn"@ + "|>"@,
        language_token(66) == "<|"@ + "yo"@ + "|>"@,
        language_token(67) == "<|"@ + "so"@ + "|>"@,
        language_token(68) == "<|"@ + "af"@ + "|>"@,
        language_token(69) == "<|"@ + "oc"@ + "|>"@,
        language_token(70) == "<|"@ + "ka"@ + "|>"@,
        language_token(71) == "<|"@ + "be"@ + "|>"@,
        language_token(72) == "<|"@ + "tg"@ + "|>"@,
        language_token(73) == "<|"@ + "sd"@ + "|>"@,
        language_token(74) == "<|"@ + "gu"@ + "|>"@,
        language_token(75) == "<|"@ + "am"@ + "|>"@,
        language_token(76) == "<|"@ + "yi"@ + "|>"@,
        language_token(77) == "<|"@ + "lo"@ + "|>"@,
        language_token(78) == "<|"@ + "uz"@ + "|>"@,
        language_token(79) == "<|"@ + "fo"@ + "|>"@,
        language_token(80) == "<|"@ + "ht"@ + "|>"@,
        language_token(81) == "<|"@ + "ps"@ + "|>"@,
        language_token(82) == "<|"@ + "tk"@ + "|>"@,
        language_token(83) == "<|"@ + "nn"@ + "|>"@,
        language_token(84) == "<|"@ + "mt"@ + "|>"@,
        language_token(85) == "<|"@ + "sa"@ + "|>"@,
        language_token(86) == "<|"@ + "lb"@ + "|>"@,
        language_token(87) == "<|"@ + "my"@ + "|>"@,
        language_token(88) == "<|"@ + "bo"@ + "|>"@,
        language_token(89) == "<|"@ + "tl"@ + "|>"@,
        language_token(90) == "<|"@ + "mg"@ + "|>"@,
        language_token(91) == "<|"@ + "as"@ + "|>"@,
        language_token(92) == "<|"@ + "tt"@ + "|>"@,
        language_token(93) == "<|"@ + "haw"@ + "|>"@,
        language_token(94) == "<|"@ + "ln"@ + "|>"@,
        language_token(95) == "<|"@ + "ha"@ + "|>"@,
        language_token(96) == "<|"@ + "ba"@ + "|>"@,
        language_token(97) == "<|"@ + "jw"@ + "|>"@,
        language_token(98) == "<|"@ + "su"@ + "|>"@,
{
}

/// A token has an id exactly if it is in the vocabulary, and then it is the one there.
pub proof fn law_ids_are_those_of_the_vocabulary(vocab: Map<Seq<char>, u32>, token: Seq<char>)
    ensures
        vocab.dom().contains(token) ==> id_of(vocab, token) == Some(vocab[token]),
        !vocab.dom().contains(token) ==> id_of(vocab, token) is None,
        unknown_token(token) == "no token id for "@ + token,
{
}

/// The ids of the language tokens are those of all languages that the vocabulary knows, in
/// the order of the languages, and no others.
pub proof fn law_language_ids_are_complete(vocab: Map<Seq<char>, u32>, n: usize)
    ensures
        language_ids(vocab, n) == Seq::new(n as nat, |i: int| i).filter(
            |i: int| vocab.dom().contains(language_token(i as usize)),
        ).map_values(|i: int| vocab[language_token(i as usize)]),
    decreases n,
{
    reveal(Seq::filter);
    let known = |i: int| vocab.dom().contains(language_token(i as usize));
    let id = |i: int| vocab[language_token(i as usize)];
    let all = Seq::new(n as nat, |i: int| i);
    if n > 0 {
        let m = (n - 1) as usize;
        law_language_ids_are_complete(vocab, m);
        assert(all.drop_last() =~= Seq::new(m as nat, |i: int| i));
        assert(all.last() == m as int);
        let before = all.drop_last().filter(known);
        if known(m as int) {
            assert(before.push(m as int).map_values(id) =~= before.map_values(id).push(
                id(m as int),
            ));
        }
        assert(language_ids(vocab, n) =~= all.filter(known).map_values(id));
    } else {
        assert(all =~= Seq::empty());
        assert(language_ids(vocab, n) =~= all.filter(known).map_values(id));
    }
}

/// Of several spellings the first counts that the vocabulary knows.
pub proof fn law_first_known_spelling_counts(
    vocab: Map<Seq<char>, u32>,
    names: Seq<&str>,
    i: int,
)
    requires
        0 <= i <= names.len(),
        forall|k: int| 0 <= k < i ==> !vocab.dom().contains((#[trigger] names[k])@),
        i < names.len() ==> vocab.dom().contains(names[i]@),
    ensures
        first_known(vocab, names) == if i < names.len() {
            Some(vocab[names[i]@])
        } else {
            None
        },
    decreases names.len(),
{
    if i > 0 {
        let later = names.drop_first();
        assert(!vocab.dom().contains(names[0]@));
        assert forall|k: int| 0 <= k < i - 1 implies !vocab.dom().contains(
            (#[trigger] later[k])@,
        ) by {
            assert(later[k] == names[k + 1]);
        }
        law_first_known_spelling_counts(vocab, later, i - 1);
    }
}

/// A vocabulary serves exactly if it knows start of transcript, end of text, transcribe, no
/// timestamps, earlier text, and one spelling of silence. Otherwise the first of these that
/// it lacks, silence before earlier text, is named.
pub proof fn law_missing_tokens_are_named(vocab: Map<Seq<char>, u32>, names: TokenNames<'_>)
    ensures
        missing_token(vocab, names) is None <==> {
            &&& vocab.dom().contains(names.sot@)
            &&& vocab.dom().contains(names.eot@)
            &&& vocab.dom().contains(names.transcribe@)
            &&& vocab.dom().contains(names.no_timestamps@)
            &&& first_known(vocab, names.no_speech@) is Some
            &&& vocab.dom().contains("<|startofprev|>"@)
        },
        prev_name() == "<|startofprev|>"@,
        !vocab.dom().contains(names.sot@) ==> missing_token(vocab, names) == Some(
            "no token id for "@ + names.sot@,
        ),
        vocab.dom().contains(names.sot@) && !vocab.dom().contains(names.eot@) ==> missing_token(
            vocab,
            names,
        ) == Some("no token id for "@ + names.eot@),
        vocab.dom().contains(names.sot@) && vocab.dom().contains(names.eot@)
            && !vocab.dom().contains(names.transcribe@) ==> missing_token(vocab, names) == Some(
            "no token id for "@ + names.transcribe@,
        ),
        vocab.dom().contains(names.sot@) && vocab.dom().contains(names.eot@)
            && vocab.dom().contains(names.transcribe@) && !vocab.dom().contains(
            names.no_timestamps@,
        ) ==> missing_token(vocab, names) == Some("no token id for "@ + names.no_timestamps@),
        vocab.dom().contains(names.sot@) && vocab.dom().contains(names.eot@)
            && vocab.dom().contains(names.transcribe@) && vocab.dom().contains(names.no_timestamps@)
            && first_known(vocab, names.no_speech@) is None ==> missing_token(vocab, names) == Some(
            "no no-speech token found in tokenizer vocab"@,
        ),
{
}

/// Models with 80 mel bins are accepted, and what is said of others names how many they
/// want.
pub proof fn law_eighty_mel_bins(bins: nat)
    ensures
        MEL_BINS == 80,
        unsupported_mel_bins(bins) == "model expects "@ + decimal(bins)
            + " mel bins, but only the bundled 80-bin filter bank is supported"@,
{
}

} // verus!
