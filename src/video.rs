//! Classification of storage keys as video files by their extension.
use vstd::prelude::*;

verus! {

/// The result of `str::to_lowercase` on a text.
pub uninterp spec fn lower_of(s: Seq<char>) -> Seq<char>;

/// Relies on str::to_lowercase: the lower-case form depends on the text alone,
/// and the empty text stays empty.
#[verifier::external_body]
pub(crate) fn lowercase(s: &str) -> (r: String)
    ensures
        r@ == lower_of(s@),
        s@.len() == 0 ==> r@.len() == 0,
{
    s.to_lowercase()
}

pub open spec fn has_suffix(s: Seq<char>, suffix: Seq<char>) -> bool {
    suffix.len() <= s.len() && s.subrange(s.len() - suffix.len(), s.len() as int) == suffix
}

/// A key names a video when its lower-case form ends with one of the
/// recognised extensions.
pub open spec fn is_video(key: Seq<char>) -> bool {
    let l = lower_of(key);
    has_suffix(l, ".mp4"@) || has_suffix(l, ".mov"@) || has_suffix(l, ".avi"@) || has_suffix(
        l,
        ".mkv"@,
    ) || has_suffix(l, ".webm"@)
}

/// Whether `s` ends with `suffix`, comparing characters.
pub fn ends_with(s: &str, suffix: &str) -> (r: bool)
    ensures
        r == has_suffix(s@, suffix@),
{
    let n = s.unicode_len();
    let m = suffix.unicode_len();
    if m > n {
        return false;
    }
    let off = n - m;
    let mut i: usize = 0;
    while i < m
        invariant
            n == s@.len(),
            m == suffix@.len(),
            off == n - m,
            i <= m,
            forall|j: int| 0 <= j < i ==> s@[off + j] == suffix@[j],
        decreases m - i,
    {
        if s.get_char(off + i) != suffix.get_char(i) {
            assert(s@.subrange(off as int, n as int)[i as int] != suffix@[i as int]);
            return false;
        }
        i = i + 1;
    }
    assert(s@.subrange(off as int, n as int) =~= suffix@);
    true
}

/// Whether a storage key names a video file: its extension is one of
/// `.mp4 .mov .avi .mkv .webm`, in any letter case.
pub fn is_video_key(key: &str) -> (r: bool)
    ensures
        r == is_video(key@),
{
    let lower = lowercase(key);
    let l = lower.as_str();
    ends_with(l, ".mp4") || ends_with(l, ".mov") || ends_with(l, ".avi") || ends_with(l, ".mkv")
        || ends_with(l, ".webm")
}

} // verus!
