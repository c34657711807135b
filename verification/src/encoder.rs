//! Choosing the image encoder by file extension.
//!
//! The image subsystem lists its encoders; each names the extensions it writes
//! as patterns such as `*.JPG;*.JPEG`. The first encoder, in the order of that
//! list, with a pattern for the wanted extension is the one that is used.

use vstd::prelude::*;
use crate::error::CaptureError;
use crate::text::{
    chars_of, is_space, lemma_lowered, lemma_strip_lowered, lemma_trailing_after,
    lemma_trim_lowered, lowered, same_chars, split, split_on, strip_leading, to_lowered, trim,
    trimmed, views, without_leading, without_leading_space, without_trailing_space,
};

verus! {

/// What an encoder says about the extensions it writes.
#[derive(Clone, Debug, PartialEq, Eq)]
pub enum ExtensionList {
    /// The encoder gives no extension information; it is passed over.
    Missing,
    /// The encoder's extension text is not valid text; the listing cannot be
    /// trusted past this point.
    Undecodable,
    /// Patterns separated by `;`, each usually of the form `*.EXT`.
    Patterns(String),
}

/// One installed encoder: its 128-bit identity and its extensions.
#[derive(Clone, Debug, PartialEq, Eq)]
pub struct EncoderDescriptor {
    pub identity: u128,
    pub extensions: ExtensionList,
}

/// The token that stands for a requested extension: one dot, then the
/// extension without the dots it started with, in lower case.
pub open spec fn wanted_token(extension: Seq<char>) -> Seq<char> {
    lowered(seq!['.'] + without_leading(extension, '.'))
}

/// The token that one pattern of an encoder stands for: the pattern without
/// surrounding white space and without its leading `*`, in lower case.
pub open spec fn pattern_token(pattern: Seq<char>) -> Seq<char> {
    lowered(without_leading(trimmed(pattern), '*'))
}

/// The `i`-th pattern of `patterns` stands for `token`.
pub open spec fn claims_at(patterns: Seq<char>, token: Seq<char>, i: int) -> bool {
    0 <= i < split(patterns, ';').len() && pattern_token(split(patterns, ';')[i]) == token
}

/// Some pattern of `patterns` stands for `token`.
pub open spec fn claims(patterns: Seq<char>, token: Seq<char>) -> bool {
    exists|i: int| #[trigger] claims_at(patterns, token, i)
}

/// The encoder writes files of the extension that `token` stands for.
pub open spec fn accepts(encoder: EncoderDescriptor, token: Seq<char>) -> bool {
    encoder.extensions matches ExtensionList::Patterns(patterns) && claims(patterns@, token)
}

/// The scan stops at this encoder: it accepts the token, or its extensions
/// cannot be read.
pub open spec fn decides(encoder: EncoderDescriptor, token: Seq<char>) -> bool {
    encoder.extensions is Undecodable || accepts(encoder, token)
}

/// The outcome of scanning `encoders` from the front for `token`.
pub open spec fn first_claim(encoders: Seq<EncoderDescriptor>, token: Seq<char>) -> Result<
    u128,
    CaptureError,
>
    decreases encoders.len(),
{
    if encoders.len() == 0 {
        Err(CaptureError::UnsupportedFormat)
    } else if encoders[0].extensions is Undecodable {
        Err(CaptureError::EncoderEnumerationFailed)
    } else if accepts(encoders[0], token) {
        Ok(encoders[0].identity)
    } else {
        first_claim(encoders.drop_first(), token)
    }
}

/// The encoder for `extension` among `encoders`: none are installed if the
/// list is empty; otherwise the first that accepts the extension's token.
pub open spec fn resolution(encoders: Seq<EncoderDescriptor>, extension: Seq<char>) -> Result<
    u128,
    CaptureError,
> {
    if encoders.len() == 0 {
        Err(CaptureError::NoEncodersInstalled)
    } else {
        first_claim(encoders, wanted_token(extension))
    }
}

/// What a scan's outcome means: an identity is that of the first encoder that
/// decides, and that encoder accepts the token; the format is unsupported
/// exactly if no encoder decides; enumeration failed exactly if the first that
/// decides cannot be read. There is no other outcome, and so no fallback.
pub proof fn lemma_first_claim(encoders: Seq<EncoderDescriptor>, token: Seq<char>)
    ensures
        match first_claim(encoders, token) {
            Ok(identity) => exists|k: int|
                0 <= k < encoders.len() && #[trigger] accepts(encoders[k], token)
                    && encoders[k].identity == identity && forall|j: int|
                    0 <= j < k ==> !#[trigger] decides(encoders[j], token),
            Err(CaptureError::UnsupportedFormat) => forall|j: int|
                0 <= j < encoders.len() ==> !#[trigger] decides(encoders[j], token),
            Err(CaptureError::EncoderEnumerationFailed) => exists|k: int|
                0 <= k < encoders.len() && #[trigger] encoders[k].extensions is Undecodable
                    && forall|j: int| 0 <= j < k ==> !#[trigger] decides(encoders[j], token),
            Err(_) => false,
        },
    decreases encoders.len(),
{
    if encoders.len() == 0 {
    } else if encoders[0].extensions is Undecodable {
        assert(encoders[0].extensions is Undecodable);
    } else if accepts(encoders[0], token) {
        assert(accepts(encoders[0], token) && encoders[0].identity == encoders[0].identity);
    } else {
        let rest = encoders.drop_first();
        lemma_first_claim(rest, token);
        assert(forall|j: int| 0 <= j < rest.len() ==> rest[j] == encoders[j + 1]);
        match first_claim(rest, token) {
            Ok(identity) => {
                let k = choose|k: int|
                    0 <= k < rest.len() && #[trigger] accepts(rest[k], token) && rest[k].identity
                        == identity && forall|j: int|
                        0 <= j < k ==> !#[trigger] decides(rest[j], token);
                assert forall|j: int| 0 <= j < k + 1 implies !#[trigger] decides(
                    encoders[j],
                    token,
                ) by {
                    if j > 0 {
                        assert(!decides(rest[j - 1], token));
                    }
                }
                assert(accepts(encoders[k + 1], token));
            },
            Err(CaptureError::UnsupportedFormat) => {
                assert forall|j: int| 0 <= j < encoders.len() implies !#[trigger] decides(
                    encoders[j],
                    token,
                ) by {
                    if j > 0 {
                        assert(!decides(rest[j - 1], token));
                    }
                }
            },
            Err(CaptureError::EncoderEnumerationFailed) => {
                let k = choose|k: int|
                    0 <= k < rest.len() && #[trigger] rest[k].extensions is Undecodable
                        && forall|j: int| 0 <= j < k ==> !#[trigger] decides(rest[j], token);
                assert forall|j: int| 0 <= j < k + 1 implies !#[trigger] decides(
                    encoders[j],
                    token,
                ) by {
                    if j > 0 {
                        assert(!decides(rest[j - 1], token));
                    }
                }
                assert(encoders[k + 1].extensions is Undecodable);
            },
            Err(_) => {},
        }
    }
}

/// The token of an extension is a dot and the extension's own characters in
/// lower case, leading dots left out.
pub proof fn lemma_wanted_token(extension: Seq<char>)
    ensures
        wanted_token(extension) == seq!['.'] + lowered(without_leading(extension, '.')),
{
    lemma_lowered(seq!['.'], without_leading(extension, '.'));
    assert(lowered(seq!['.']) =~= seq!['.']);
}

/// Two spellings of one extension: a dot in front changes nothing, and
/// neither does the case of the letters.
pub proof fn lemma_spellings(a: Seq<char>, b: Seq<char>)
    ensures
        wanted_token(seq!['.'] + a) == wanted_token(a),
        lowered(a) == lowered(b) ==> wanted_token(a) == wanted_token(b),
        wanted_token(lowered(a)) == wanted_token(a),
{
    assert((seq!['.'] + a).drop_first() =~= a);
    lemma_wanted_token(a);
    lemma_wanted_token(b);
    lemma_wanted_token(lowered(a));
    lemma_strip_lowered(a, '.');
    lemma_strip_lowered(b, '.');
    lemma_strip_lowered(lowered(a), '.');
    lemma_lowered(a, b);
    lemma_lowered(without_leading(a, '.'), b);
}

/// Matching ignores case and a leading dot: extensions that differ only in
/// these resolve alike, to the same encoder or to the same failure, whatever
/// encoders are installed.
pub proof fn lemma_resolution_ignores_spelling(
    encoders: Seq<EncoderDescriptor>,
    a: Seq<char>,
    b: Seq<char>,
)
    requires
        lowered(without_leading(a, '.')) == lowered(without_leading(b, '.')),
    ensures
        wanted_token(a) == wanted_token(b),
        resolution(encoders, a) == resolution(encoders, b),
{
    lemma_wanted_token(a);
    lemma_wanted_token(b);
}

/// Matching ignores how an encoder spells its patterns: their case, and a
/// wildcard in front.
pub proof fn lemma_pattern_spellings(p: Seq<char>, q: Seq<char>)
    ensures
        lowered(p) == lowered(q) ==> pattern_token(p) == pattern_token(q),
        p.len() == 0 || !is_space(p[0]) ==> pattern_token(seq!['*'] + p) == pattern_token(p),
{
    if lowered(p) == lowered(q) {
        lemma_trim_lowered(p);
        lemma_trim_lowered(q);
        lemma_strip_lowered(trimmed(p), '*');
        lemma_strip_lowered(trimmed(q), '*');
    }
    if p.len() == 0 || !is_space(p[0]) {
        let starred = seq!['*'] + p;
        assert(without_leading_space(starred) == starred);
        assert(without_leading_space(p) == p);
        lemma_trailing_after('*', p);
        assert((seq!['*'] + without_trailing_space(p)).drop_first() =~= without_trailing_space(p));
    }
}

/// No fallback: an encoder is chosen only if it is installed and one of its
/// patterns stands for the extension; when none does, the format is
/// unsupported.
pub proof fn lemma_no_fallback(encoders: Seq<EncoderDescriptor>, extension: Seq<char>)
    ensures
        resolution(encoders, extension) matches Ok(identity) ==> exists|k: int|
            0 <= k < encoders.len() && #[trigger] accepts(encoders[k], wanted_token(extension))
                && encoders[k].identity == identity,
        encoders.len() > 0 && (forall|k: int|
            0 <= k < encoders.len() ==> !#[trigger] decides(
                encoders[k],
                wanted_token(extension),
            )) ==> resolution(encoders, extension) == Err::<u128, CaptureError>(
            CaptureError::UnsupportedFormat,
        ),
{
    lemma_first_claim(encoders, wanted_token(extension));
    if resolution(encoders, extension) is Ok {
        let identity = resolution(encoders, extension)->Ok_0;
        let k = choose|k: int|
            0 <= k < encoders.len() && #[trigger] accepts(encoders[k], wanted_token(extension))
                && encoders[k].identity == identity && forall|j: int|
                0 <= j < k ==> !#[trigger] decides(encoders[j], wanted_token(extension));
        assert(accepts(encoders[k], wanted_token(extension)) && encoders[k].identity == identity);
    }
    if encoders.len() > 0 && (forall|k: int|
        0 <= k < encoders.len() ==> !#[trigger] decides(encoders[k], wanted_token(extension))) {
        match first_claim(encoders, wanted_token(extension)) {
            Ok(identity) => {
                let k = choose|k: int|
                    0 <= k < encoders.len() && #[trigger] accepts(
                        encoders[k],
                        wanted_token(extension),
                    ) && encoders[k].identity == identity && forall|j: int|
                        0 <= j < k ==> !#[trigger] decides(encoders[j], wanted_token(extension));
                assert(decides(encoders[k], wanted_token(extension)));
            },
            Err(CaptureError::EncoderEnumerationFailed) => {
                let k = choose|k: int|
                    0 <= k < encoders.len() && #[trigger] encoders[k].extensions is Undecodable
                        && forall|j: int|
                        0 <= j < k ==> !#[trigger] decides(encoders[j], wanted_token(extension));
                assert(decides(encoders[k], wanted_token(extension)));
            },
            Err(_) => {},
        }
    }
}

/// Computes [`wanted_token`]: `jpg`, `.jpg` and `JPG` all give `.jpg`.
pub fn normalize_extension(extension: &str) -> (token: Vec<char>)
    ensures
        token@ == wanted_token(extension@),
{
    let chars = chars_of(extension);
    let bare = strip_leading(&chars, '.');
    let mut dotted: Vec<char> = Vec::new();
    dotted.push('.');
    let mut i: usize = 0;
    while i < bare.len()
        invariant
            i <= bare@.len(),
            dotted@ == seq!['.'] + bare@.take(i as int),
        decreases bare@.len() - i,
    {
        dotted.push(bare[i]);
        assert(bare@.take(i + 1) =~= bare@.take(i as int).push(bare@[i as int]));
        i = i + 1;
    }
    assert(bare@.take(bare@.len() as int) =~= bare@);
    to_lowered(&dotted)
}

/// Computes [`pattern_token`].
pub fn normalize_pattern(pattern: &Vec<char>) -> (token: Vec<char>)
    ensures
        token@ == pattern_token(pattern@),
{
    let inner = trim(pattern);
    let bare = strip_leading(&inner, '*');
    to_lowered(&bare)
}

/// Whether one of the `;`-separated `patterns` stands for `token`.
pub fn pattern_claims(patterns: &str, token: &Vec<char>) -> (r: bool)
    ensures
        r == claims(patterns@, token@),
{
    let chars = chars_of(patterns);
    let pieces = split_on(&chars, ';');
    let mut i: usize = 0;
    while i < pieces.len()
        invariant
            i <= pieces@.len(),
            views(pieces@) == split(patterns@, ';'),
            forall|j: int| 0 <= j < i ==> !claims_at(patterns@, token@, j),
        decreases pieces@.len() - i,
    {
        let candidate = normalize_pattern(&pieces[i]);
        assert(views(pieces@)[i as int] == pieces@[i as int]@);
        if same_chars(&candidate, token) {
            assert(claims_at(patterns@, token@, i as int));
            return true;
        }
        i = i + 1;
    }
    false
}

/// Scans `encoders` in order for the first that accepts `token`.
pub fn find_encoder(encoders: &Vec<EncoderDescriptor>, token: &Vec<char>) -> (result: Result<
    u128,
    CaptureError,
>)
    ensures
        result == first_claim(encoders@, token@),
{
    let mut i: usize = 0;
    assert(encoders@.skip(0) =~= encoders@);
    while i < encoders.len()
        invariant
            i <= encoders@.len(),
            first_claim(encoders@, token@) == first_claim(encoders@.skip(i as int), token@),
        decreases encoders@.len() - i,
    {
        assert(encoders@.skip(i as int).drop_first() =~= encoders@.skip(i + 1));
        assert(encoders@.skip(i as int)[0] == encoders@[i as int]);
        match &encoders[i].extensions {
            ExtensionList::Missing => {},
            ExtensionList::Undecodable => {
                return Err(CaptureError::EncoderEnumerationFailed);
            },
            ExtensionList::Patterns(patterns) => {
                if pattern_claims(patterns.as_str(), token) {
                    return Ok(encoders[i].identity);
                }
            },
        }
        i = i + 1;
    }
    Err(CaptureError::UnsupportedFormat)
}

/// Picks the encoder for a file extension, given with or without its dot and
/// in any case.
///
/// With no encoder installed the answer is `NoEncodersInstalled`. Otherwise
/// the encoders are scanned in the order given and the first whose patterns
/// hold the extension wins. If none does, the format is unsupported: no
/// encoder is ever chosen in its place.
pub fn resolve_encoder(encoders: &Vec<EncoderDescriptor>, extension: &str) -> (result: Result<
    u128,
    CaptureError,
>)
    ensures
        result == resolution(encoders@, extension@),
{
    if encoders.len() == 0 {
        return Err(CaptureError::NoEncodersInstalled);
    }
    let token = normalize_extension(extension);
    find_encoder(encoders, &token)
}

} // verus!
