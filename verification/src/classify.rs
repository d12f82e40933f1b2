use crate::text::{contains_sub, ends_with_sub, has_substring, has_suffix, push_str_all};
use vstd::prelude::*;
use vstd::string::StrSliceExecFns;

verus! {

/// The image-hosting domains whose links are always treated as images.
pub open spec fn in_domain_allowlist(s: Seq<char>) -> bool {
    ||| has_substring(s, "500px.com"@)
    ||| has_substring(s, "abload.de"@)
    ||| has_substring(s, "deviantart.com"@)
    ||| has_substring(s, "deviantart.net"@)
    ||| has_substring(s, "fav.me"@)
    ||| has_substring(s, "fbcdn.net"@)
    ||| has_substring(s, "flickr.com"@)
    ||| has_substring(s, "forgifs.com"@)
    ||| has_substring(s, "giphy.com"@)
    ||| has_substring(s, "gfycat.com"@)
    ||| has_substring(s, "gifsoup.com"@)
    ||| has_substring(s, "gyazo.com"@)
    ||| has_substring(s, "imageshack.us"@)
    ||| has_substring(s, "imgclean.com"@)
    ||| has_substring(s, "imgur.com"@)
    ||| has_substring(s, "instagr.am"@)
    ||| has_substring(s, "instagram.com"@)
    ||| has_substring(s, "mediacru.sh"@)
    ||| has_substring(s, "media.tumblr.com"@)
    ||| has_substring(s, "min.us"@)
    ||| has_substring(s, "minus.com"@)
    ||| has_substring(s, "myimghost.com"@)
    ||| has_substring(s, "photobucket.com"@)
    ||| has_substring(s, "picsarus.com"@)
    ||| has_substring(s, "puu.sh"@)
    ||| has_substring(s, "staticflickr.com"@)
    ||| has_substring(s, "tinypic.com"@)
    ||| has_substring(s, "twitpic.com)"@)
}

/// True when the link carries one of the recognized image extensions.
pub open spec fn has_image_extension(s: Seq<char>) -> bool {
    ||| has_suffix(s, ".png"@)
    ||| has_suffix(s, ".jpg"@)
    ||| has_suffix(s, ".gif"@)
}

/// How a candidate link is classified. A link on an allowlisted domain is
/// always an image: an animated-image extension is normalized by dropping
/// its trailing letter, a missing image extension has one appended. Any
/// other link is an image only with a recognized extension, unchanged.
pub open spec fn spec_is_image(s: Seq<char>) -> Option<Seq<char>> {
    if in_domain_allowlist(s) {
        if has_suffix(s, ".gifv"@) {
            Some(s.take(s.len() - 1))
        } else if !has_image_extension(s) {
            Some(s + ".png"@)
        } else {
            Some(s)
        }
    } else if has_image_extension(s) {
        Some(s)
    } else {
        None
    }
}

fn matches_allowlist(url: &str) -> (r: bool)
    ensures
        r == in_domain_allowlist(url@),
{
    contains_sub(url, "500px.com") || contains_sub(url, "abload.de") || contains_sub(
        url,
        "deviantart.com",
    ) || contains_sub(url, "deviantart.net") || contains_sub(url, "fav.me") || contains_sub(
        url,
        "fbcdn.net",
    ) || contains_sub(url, "flickr.com") || contains_sub(url, "forgifs.com") || contains_sub(
        url,
        "giphy.com",
    ) || contains_sub(url, "gfycat.com") || contains_sub(url, "gifsoup.com") || contains_sub(
        url,
        "gyazo.com",
    ) || contains_sub(url, "imageshack.us") || contains_sub(url, "imgclean.com") || contains_sub(
        url,
        "imgur.com",
    ) || contains_sub(url, "instagr.am") || contains_sub(url, "instagram.com") || contains_sub(
        url,
        "mediacru.sh",
    ) || contains_sub(url, "media.tumblr.com") || contains_sub(url, "min.us") || contains_sub(
        url,
        "minus.com",
    ) || contains_sub(url, "myimghost.com") || contains_sub(url, "photobucket.com")
        || contains_sub(url, "picsarus.com") || contains_sub(url, "puu.sh") || contains_sub(
        url,
        "staticflickr.com",
    ) || contains_sub(url, "tinypic.com") || contains_sub(url, "twitpic.com)")
}

fn has_image_ext(url: &str) -> (r: bool)
    ensures
        r == has_image_extension(url@),
{
    ends_with_sub(url, ".png") || ends_with_sub(url, ".jpg") || ends_with_sub(url, ".gif")
}

/// Classifies a candidate link, handing back the image link to fetch, or
/// nothing when the link is not an image.
pub fn is_image(url: &str) -> (r: Option<String>)
    ensures
        r is Some <==> spec_is_image(url@) is Some,
        r is Some ==> r->Some_0@ == spec_is_image(url@)->Some_0,
{
    if matches_allowlist(url) {
        if ends_with_sub(url, ".gifv") {
            let n = url.unicode_len();
            proof {
                reveal_strlit(".gifv");
            }
            let mut out = String::new();
            crate::text::push_prefix(&mut out, url, n - 1);
            assert(out@ =~= url@.take(url@.len() - 1));
            Some(out)
        } else if !has_image_ext(url) {
            let mut out = url.to_owned();
            push_str_all(&mut out, ".png");
            Some(out)
        } else {
            Some(url.to_owned())
        }
    } else if has_image_ext(url) {
        Some(url.to_owned())
    } else {
        None
    }
}

} // verus!
