//! Paths as text: joining, and the few questions the library asks of
//! `std::path::Path`.

use vstd::prelude::*;

use crate::text::{push_char, push_str};

verus! {

/// Whether `std::path::Path::is_absolute` holds of the path with this text.
pub uninterp spec fn path_is_absolute(p: Seq<char>) -> bool;

/// What `Path::strip_prefix` leaves of `p` under `base`, as text; `None` when
/// `base` is not a component-wise prefix of `p`.
pub uninterp spec fn path_strip_prefix(p: Seq<char>, base: Seq<char>) -> Option<Seq<char>>;

/// The last component of the path (`Path::file_name`), as text, when there is
/// one and it is valid Unicode.
pub uninterp spec fn path_file_name(p: Seq<char>) -> Option<Seq<char>>;

/// The extension of the path's last component (`Path::extension`), as text,
/// when there is one and it is valid Unicode.
pub uninterp spec fn path_extension(p: Seq<char>) -> Option<Seq<char>>;

/// `Path::new(p).is_absolute()`.
#[verifier::external_body]
pub(crate) fn is_absolute(p: &str) -> (r: bool)
    ensures
        r == path_is_absolute(p@),
{
    std::path::Path::new(p).is_absolute()
}

/// `Path::new(p).strip_prefix(base)`, the remainder rendered as text.
#[verifier::external_body]
pub(crate) fn strip_prefix(p: &str, base: &str) -> (r: Option<String>)
    ensures
        r.deep_view() == path_strip_prefix(p@, base@),
{
    std::path::Path::new(p).strip_prefix(base).ok().map(|rest| rest.to_string_lossy().into_owned())
}

/// `Path::new(p).file_name()` when it is valid Unicode.
#[verifier::external_body]
pub(crate) fn file_name(p: &str) -> (r: Option<String>)
    ensures
        r.deep_view() == path_file_name(p@),
{
    std::path::Path::new(p).file_name().and_then(|name| name.to_str()).map(|name| name.to_string())
}

/// `Path::new(p).extension()` when it is valid Unicode.
#[verifier::external_body]
pub(crate) fn extension(p: &str) -> (r: Option<String>)
    ensures
        r.deep_view() == path_extension(p@),
{
    std::path::Path::new(p).extension().and_then(|ext| ext.to_str()).map(|ext| ext.to_string())
}

/// `base` joined with a relative `name` the way `PathBuf::push` joins them: a
/// `/` between the two unless `base` is empty or already ends in one.
pub open spec fn path_join(base: Seq<char>, name: Seq<char>) -> Seq<char> {
    if base.len() == 0 || base.last() == '/' {
        base + name
    } else {
        base.push('/') + name
    }
}

pub fn join(base: &str, name: &str) -> (r: String)
    ensures
        r@ == path_join(base@, name@),
{
    let mut out = base.to_string();
    let chars = crate::text::chars_of(base);
    if chars.len() > 0 && chars[chars.len() - 1] != '/' {
        push_char(&mut out, '/');
    }
    push_str(&mut out, name);
    proof {
        if base@.len() > 0 && base@.last() != '/' {
            assert(out@ =~= base@.push('/') + name@);
        }
    }
    out
}

} // verus!
