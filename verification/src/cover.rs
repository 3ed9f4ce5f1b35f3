use vstd::arithmetic::power2::*;
use vstd::prelude::*;

use crate::text;

verus! {

/// How often a cover is asked for.
pub const COVER_ATTEMPTS: u32 = 3;

/// How many milliseconds to wait for a cover.
pub const COVER_TIMEOUT: u64 = 10_000;

/// The address to fetch a cover from: one that is not blank.
pub fn cover_to_fetch(html_img_cover_url: Option<String>) -> (r: Option<String>)
    ensures
        text::opt_text(r) == match html_img_cover_url {
            Some(url) if !text::is_blank(url@) => Some(url@),
            _ => None,
        },
{
    match html_img_cover_url {
        Some(url) => {
            if url.as_str().trim().is_empty() {
                None
            } else {
                Some(url)
            }
        },
        None => None,
    }
}

/// How many milliseconds to wait before the attempt: none before the first, and
/// three hundred doubled for each attempt made, three times at most.
pub open spec fn pause_before(attempt: nat) -> nat {
    if attempt == 0 {
        0
    } else {
        300 * pow2(
            if attempt < 3 {
                attempt
            } else {
                3
            },
        )
    }
}

/// How many milliseconds to wait before the attempt.
pub fn cover_pause(attempt: u32) -> (r: u64)
    ensures
        r == pause_before(attempt as nat),
{
    if attempt == 0 {
        return 0;
    }
    let doublings: u32 = if attempt < 3 {
        attempt
    } else {
        3
    };
    proof {
        lemma2_to64();
    }
    assert(1u64 << 1u32 == 2 && 1u64 << 2u32 == 4 && 1u64 << 3u32 == 8) by (bit_vector);
    300 * (1u64 << doublings)
}

/// From the second attempt on, each pause is twice the one ahead of it, and from
/// the fourth on it stays the same.
pub proof fn lemma_pause_before(attempt: nat)
    requires
        attempt >= 1,
    ensures
        pause_before(attempt + 1) == if attempt < 3 {
            2 * pause_before(attempt)
        } else {
            pause_before(attempt)
        },
{
    lemma2_to64();
}

/// The kinds of picture that are told apart.
#[derive(Clone, Copy, Debug, PartialEq, Eq, Structural)]
pub enum CoverKind {
    Heic,
    Png,
    Webp,
    Jpeg,
}

/// The word of four bytes that stands at `at`.
pub open spec fn word_at(bytes: Seq<u8>, at: int) -> Seq<u8> {
    bytes.subrange(at, at + 4)
}

/// A picture in one of the forms of HEIC: a box `ftyp` with one of its brands.
pub open spec fn is_heic(bytes: Seq<u8>) -> bool {
    bytes.len() >= 12 && word_at(bytes, 4) == seq![0x66u8, 0x74, 0x79, 0x70] && (word_at(bytes, 8)
        == seq![0x68u8, 0x65, 0x69, 0x63] || word_at(bytes, 8) == seq![0x68u8, 0x65, 0x69, 0x78]
        || word_at(bytes, 8) == seq![0x6du8, 0x69, 0x66, 0x31] || word_at(bytes, 8)
        == seq![0x6du8, 0x73, 0x66, 0x31])
}

/// A picture that begins as PNG.
pub open spec fn is_png(bytes: Seq<u8>) -> bool {
    bytes.len() >= 8 && word_at(bytes, 0) == seq![0x89u8, 0x50, 0x4e, 0x47]
}

/// A picture that begins as WebP: a file `RIFF` of the form `WEBP`.
pub open spec fn is_webp(bytes: Seq<u8>) -> bool {
    bytes.len() >= 12 && word_at(bytes, 0) == seq![0x52u8, 0x49, 0x46, 0x46] && word_at(bytes, 8)
        == seq![0x57u8, 0x45, 0x42, 0x50]
}

/// The kind of a picture; what is no other kind is taken for JPEG.
pub open spec fn kind_of(bytes: Seq<u8>) -> CoverKind {
    if is_heic(bytes) {
        CoverKind::Heic
    } else if is_png(bytes) {
        CoverKind::Png
    } else if is_webp(bytes) {
        CoverKind::Webp
    } else {
        CoverKind::Jpeg
    }
}

fn has_word(bytes: &Vec<u8>, at: usize, a: u8, b: u8, c: u8, d: u8) -> (r: bool)
    requires
        at + 4 <= bytes.len(),
    ensures
        r == (word_at(bytes@, at as int) == seq![a, b, c, d]),
{
    let ghost word = word_at(bytes@, at as int);
    proof {
        assert(word[0] == bytes@[at as int]);
        assert(word[1] == bytes@[at + 1]);
        assert(word[2] == bytes@[at + 2]);
        assert(word[3] == bytes@[at + 3]);
        let other = seq![a, b, c, d];
        assert(other[0] == a && other[1] == b && other[2] == c && other[3] == d);
        assert(word == other <==> (word[0] == a && word[1] == b && word[2] == c && word[3] == d))
            by {
            if word[0] == a && word[1] == b && word[2] == c && word[3] == d {
                assert(word =~= other);
            }
        }
    }
    bytes[at] == a && bytes[at + 1] == b && bytes[at + 2] == c && bytes[at + 3] == d
}

/// The kind of a picture.
pub fn cover_kind(bytes: &Vec<u8>) -> (r: CoverKind)
    ensures
        r == kind_of(bytes@),
{
    if bytes.len() >= 12 && has_word(bytes, 4, 0x66, 0x74, 0x79, 0x70) && (has_word(
        bytes,
        8,
        0x68,
        0x65,
        0x69,
        0x63,
    ) || has_word(bytes, 8, 0x68, 0x65, 0x69, 0x78) || has_word(bytes, 8, 0x6d, 0x69, 0x66, 0x31)
        || has_word(bytes, 8, 0x6d, 0x73, 0x66, 0x31)) {
        return CoverKind::Heic;
    }
    if bytes.len() >= 8 && has_word(bytes, 0, 0x89, 0x50, 0x4e, 0x47) {
        return CoverKind::Png;
    }
    if bytes.len() >= 12 && has_word(bytes, 0, 0x52, 0x49, 0x46, 0x46) && has_word(
        bytes,
        8,
        0x57,
        0x45,
        0x42,
        0x50,
    ) {
        return CoverKind::Webp;
    }
    CoverKind::Jpeg
}

/// What is to be done after a cover was asked for.
#[derive(Debug, PartialEq, Eq)]
pub enum CoverStep {
    Retry,
    Stop,
    /// Write the picture to a file with this extension.
    Save(String),
}

/// What a [`CoverStep`] says.
pub enum CoverAction {
    Retry,
    Stop,
    Save(Seq<char>),
}

/// What a [`CoverStep`] says.
pub open spec fn action_of(step: CoverStep) -> CoverAction {
    match step {
        CoverStep::Retry => CoverAction::Retry,
        CoverStep::Stop => CoverAction::Stop,
        CoverStep::Save(ext) => CoverAction::Save(ext@),
    }
}

/// What is to be done with what came: nothing or no bytes are asked for again, a
/// HEIC picture is given up, and any other is saved with the extension of its kind.
pub open spec fn cover_action(fetched: Option<Seq<u8>>) -> CoverAction {
    match fetched {
        Some(bytes) if bytes.len() > 0 => match kind_of(bytes) {
            CoverKind::Heic => CoverAction::Stop,
            CoverKind::Png => CoverAction::Save("png"@),
            CoverKind::Webp => CoverAction::Save("webp"@),
            CoverKind::Jpeg => CoverAction::Save("jpg"@),
        },
        _ => CoverAction::Retry,
    }
}

/// What is to be done with what came.
pub fn after_cover(fetched: &Option<Vec<u8>>) -> (r: CoverStep)
    ensures
        action_of(r) == cover_action(text::opt_bytes(*fetched)),
{
    match fetched {
        Some(bytes) => {
            if bytes.len() == 0 {
                return CoverStep::Retry;
            }
            match cover_kind(bytes) {
                CoverKind::Heic => CoverStep::Stop,
                CoverKind::Png => CoverStep::Save("png".to_owned()),
                CoverKind::Webp => CoverStep::Save("webp".to_owned()),
                CoverKind::Jpeg => CoverStep::Save("jpg".to_owned()),
            }
        },
        None => CoverStep::Retry,
    }
}

/// The attempt that follows one that brought no cover, or whose cover could not be
/// written: the next, as long as there is one.
pub open spec fn attempt_after(attempt: int) -> Option<int> {
    if attempt + 1 < COVER_ATTEMPTS {
        Some(attempt + 1)
    } else {
        None
    }
}

/// The attempt that follows one that brought no cover, or whose cover could not be
/// written.
pub fn next_cover_attempt(attempt: u32) -> (r: Option<u32>)
    ensures
        r == match attempt_after(attempt as int) {
            Some(next) => Some(next as u32),
            None => None,
        },
        r is Some <==> attempt + 1 < COVER_ATTEMPTS,
        r matches Some(next) ==> next == attempt + 1,
{
    if attempt < COVER_ATTEMPTS - 1 {
        Some(attempt + 1)
    } else {
        None
    }
}

/// The attempt whose cover is saved, from `attempt` on, where one is: `fetched[i]`
/// is what the attempt `i` brings, and `written[i]` whether it can be written.
pub open spec fn saved_at(
    fetched: Seq<Option<Seq<u8>>>,
    written: Seq<bool>,
    attempt: int,
) -> Option<int>
    decreases COVER_ATTEMPTS - attempt,
{
    if settles(fetched[attempt], written[attempt]) {
        if cover_action(fetched[attempt]) is Save {
            Some(attempt)
        } else {
            None
        }
    } else {
        match attempt_after(attempt) {
            Some(next) => saved_at(fetched, written, next),
            None => None,
        }
    }
}

/// What came ends the attempts: it is given up, or it is saved and can be written.
pub open spec fn settles(fetched: Option<Seq<u8>>, written: bool) -> bool {
    match cover_action(fetched) {
        CoverAction::Retry => false,
        CoverAction::Stop => true,
        CoverAction::Save(_) => written,
    }
}

/// The first attempt that settles the matter decides, here the attempt `n`: its
/// cover is saved unless it is given up. Where none does, which is so when `n` is the
/// number of attempts, none is saved, and no further attempt is made.
pub proof fn lemma_saved_at(
    fetched: Seq<Option<Seq<u8>>>,
    written: Seq<bool>,
    attempt: int,
    n: int,
)
    requires
        0 <= attempt < COVER_ATTEMPTS,
        attempt <= n <= COVER_ATTEMPTS,
        forall|i: int| attempt <= i < n ==> !settles(#[trigger] fetched[i], written[i]),
        n < COVER_ATTEMPTS ==> settles(fetched[n], written[n]),
    ensures
        saved_at(fetched, written, attempt) == if n < COVER_ATTEMPTS && cover_action(
            fetched[n],
        ) is Save {
            Some(n)
        } else {
            None
        },
    decreases COVER_ATTEMPTS - attempt,
{
    if attempt < n {
        assert(!settles(fetched[attempt], written[attempt]));
        if attempt + 1 < COVER_ATTEMPTS {
            lemma_saved_at(fetched, written, attempt + 1, n);
        }
    }
}

/// The kind of a picture depends on its first twelve bytes alone: what follows them is
/// of no account.
pub proof fn lemma_kind_by_first_bytes(s: Seq<u8>, t: Seq<u8>)
    requires
        s.len() >= 12,
    ensures
        kind_of(s + t) == kind_of(s),
        cover_action(Some(s + t)) == cover_action(Some(s)),
{
    let whole = s + t;
    assert(word_at(whole, 0) =~= word_at(s, 0));
    assert(word_at(whole, 4) =~= word_at(s, 4));
    assert(word_at(whole, 8) =~= word_at(s, 8));
}

/// `bytes` hold `ftyp` from the fourth byte on, and one of the HEIC brands after it.
pub open spec fn names_heic(bytes: Seq<u8>) -> bool {
    &&& bytes.len() >= 12
    &&& bytes[4] == 0x66 && bytes[5] == 0x74 && bytes[6] == 0x79 && bytes[7] == 0x70
    &&& {
        ||| bytes[8] == 0x68 && bytes[9] == 0x65 && bytes[10] == 0x69 && bytes[11] == 0x63
        ||| bytes[8] == 0x68 && bytes[9] == 0x65 && bytes[10] == 0x69 && bytes[11] == 0x78
        ||| bytes[8] == 0x6d && bytes[9] == 0x69 && bytes[10] == 0x66 && bytes[11] == 0x31
        ||| bytes[8] == 0x6d && bytes[9] == 0x73 && bytes[10] == 0x66 && bytes[11] == 0x31
    }
}

/// A picture is given up exactly when it names a HEIC brand. Any other with at least
/// eight bytes that begins with the byte `89` and `PNG` is saved as `png`, whatever
/// follows; any other with at least twelve bytes that begins with `RIFF` and has `WEBP`
/// from the eighth byte on is saved as `webp`; and all that is left is saved as `jpg`.
pub proof fn lemma_cover_action(bytes: Seq<u8>)
    requires
        bytes.len() > 0,
    ensures
        ({
            let png = bytes.len() >= 8 && bytes[0] == 0x89 && bytes[1] == 0x50 && bytes[2] == 0x4e
                && bytes[3] == 0x47;
            let webp = bytes.len() >= 12 && bytes[0] == 0x52 && bytes[1] == 0x49 && bytes[2] == 0x46
                && bytes[3] == 0x46 && bytes[8] == 0x57 && bytes[9] == 0x45 && bytes[10] == 0x42
                && bytes[11] == 0x50;
            &&& names_heic(bytes) ==> cover_action(Some(bytes)) is Stop && kind_of(bytes) is Heic
            &&& !names_heic(bytes) && png ==> cover_action(Some(bytes)) == CoverAction::Save(
                "png"@,
            ) && kind_of(bytes) is Png
            &&& !names_heic(bytes) && webp ==> cover_action(Some(bytes)) == CoverAction::Save(
                "webp"@,
            ) && kind_of(bytes) is Webp
            &&& !names_heic(bytes) && !png && !webp ==> cover_action(Some(bytes))
                == CoverAction::Save("jpg"@) && kind_of(bytes) is Jpeg
        }),
{
    if bytes.len() >= 12 {
        lemma_word_at(bytes, 4, 0x66, 0x74, 0x79, 0x70);
        lemma_word_at(bytes, 8, 0x68, 0x65, 0x69, 0x63);
        lemma_word_at(bytes, 8, 0x68, 0x65, 0x69, 0x78);
        lemma_word_at(bytes, 8, 0x6d, 0x69, 0x66, 0x31);
        lemma_word_at(bytes, 8, 0x6d, 0x73, 0x66, 0x31);
        lemma_word_at(bytes, 0, 0x52, 0x49, 0x46, 0x46);
        lemma_word_at(bytes, 8, 0x57, 0x45, 0x42, 0x50);
    }
    if bytes.len() >= 8 {
        lemma_word_at(bytes, 0, 0x89, 0x50, 0x4e, 0x47);
    }
}

/// A picture without bytes has the kind of what is taken for JPEG.
pub proof fn lemma_kind_of_nothing()
    ensures
        kind_of(Seq::empty()) is Jpeg,
{
}

proof fn lemma_word_at(bytes: Seq<u8>, at: int, a: u8, b: u8, c: u8, d: u8)
    requires
        0 <= at,
        at + 4 <= bytes.len(),
    ensures
        word_at(bytes, at) == seq![a, b, c, d] <==> bytes[at] == a && bytes[at + 1] == b && bytes[at
            + 2] == c && bytes[at + 3] == d,
{
    let word = word_at(bytes, at);
    let other = seq![a, b, c, d];
    assert(word[0] == bytes[at] && word[1] == bytes[at + 1] && word[2] == bytes[at + 2] && word[3]
        == bytes[at + 3]);
    assert(other[0] == a && other[1] == b && other[2] == c && other[3] == d);
    if bytes[at] == a && bytes[at + 1] == b && bytes[at + 2] == c && bytes[at + 3] == d {
        assert(word =~= other);
    }
}

/// A whole PNG picture, its signature and whatever follows, is saved as `png`, unless
/// its bytes from the fourth to the eleventh name a HEIC brand.
pub proof fn lemma_png_saved(rest: Seq<u8>)
    ensures
        ({
            let picture = seq![0x89u8, 0x50, 0x4e, 0x47, 0x0d, 0x0a, 0x1a, 0x0a] + rest;
            !names_heic(picture) ==> cover_action(Some(picture)) == CoverAction::Save("png"@)
        }),
{
    let signature = seq![0x89u8, 0x50, 0x4e, 0x47, 0x0d, 0x0a, 0x1a, 0x0a];
    let picture = signature + rest;
    assert(picture[0] == signature[0] && picture[1] == signature[1] && picture[2] == signature[2]
        && picture[3] == signature[3]);
    lemma_cover_action(picture);
}

/// What brings no picture is asked for again, as often as there are attempts left.
pub proof fn lemma_nothing_fetched()
    ensures
        cover_action(None) is Retry,
        cover_action(Some(Seq::empty())) is Retry,
{
}

/// What a step says is what it is.
pub proof fn lemma_action_of(ext: String)
    ensures
        action_of(CoverStep::Retry) is Retry,
        action_of(CoverStep::Stop) is Stop,
        action_of(CoverStep::Save(ext)) == CoverAction::Save(ext@),
{
}

/// There is no pause before the first attempt, and there are six hundred, twelve hundred
/// and then always twenty-four hundred milliseconds before those that follow.
pub proof fn lemma_pauses(attempt: nat)
    ensures
        pause_before(0) == 0,
        pause_before(1) == 600,
        pause_before(2) == 1200,
        attempt >= 3 ==> pause_before(attempt) == 2400,
{
    lemma2_to64();
}

} // verus!
