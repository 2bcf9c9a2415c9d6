//! Extraction of the canonical video identifier from a watch-page URL.
//!
//! The accepted URLs are exactly the platform's watch-page address followed
//! by an identifier of the form `sm` and one or more decimal digits, with
//! nothing after it.

use vstd::prelude::*;
use vstd::string::StrSliceExecFns;
use crate::AdvertError;

verus! {

/// Decimal digit characters.
pub open spec fn spec_is_digit(c: char) -> bool {
    '0' <= c <= '9'
}

/// A canonical video identifier: `sm` followed by one or more digits.
pub open spec fn spec_valid_video_id(id: Seq<char>) -> bool {
    &&& id.len() >= 3
    &&& id[0] == 's'
    &&& id[1] == 'm'
    &&& forall|i: int| 2 <= i < id.len() ==> spec_is_digit(#[trigger] id[i])
}

/// The fixed watch-page address that every accepted URL starts with.
pub open spec fn spec_watch_prefix() -> Seq<char> {
    "https://www.nicovideo.jp/watch/"@
}

/// The identifier extracted from a URL, when the URL is exactly the
/// watch-page address followed by a valid identifier.
pub open spec fn spec_extract_video_id(url: Seq<char>) -> Option<Seq<char>> {
    let p = spec_watch_prefix();
    if url.len() > p.len() && url.subrange(0, p.len() as int) == p && spec_valid_video_id(
        url.skip(p.len() as int),
    ) {
        Some(url.skip(p.len() as int))
    } else {
        None
    }
}

/// Extracts the video identifier from a watch-page URL, rejecting every
/// URL that does not match the fixed pattern exactly.
pub fn extract_video_id(url: &str) -> (r: Result<String, AdvertError>)
    ensures
        r matches Ok(id) ==> spec_extract_video_id(url@) == Some(id@),
        r is Ok <==> spec_extract_video_id(url@) is Some,
        r matches Err(e) ==> e == AdvertError::InvalidUrl,
{
    let prefix = "https://www.nicovideo.jp/watch/";
    proof {
        reveal_strlit("https://www.nicovideo.jp/watch/");
    }
    let plen = prefix.unicode_len();
    let ulen = url.unicode_len();
    if ulen < plen + 3 {
        return Err(AdvertError::InvalidUrl);
    }
    let mut i: usize = 0;
    while i < plen
        invariant
            i <= plen,
            plen == spec_watch_prefix().len(),
            ulen == url@.len(),
            plen + 3 <= ulen,
            forall|j: int| 0 <= j < i ==> url@[j] == spec_watch_prefix()[j],
        decreases plen - i,
    {
        if url.get_char(i) != prefix.get_char(i) {
            proof {
                assert(url@.subrange(0, plen as int)[i as int] != spec_watch_prefix()[i as int]);
            }
            return Err(AdvertError::InvalidUrl);
        }
        i = i + 1;
    }
    proof {
        assert(url@.subrange(0, plen as int) =~= spec_watch_prefix());
    }
    let ghost id_view = url@.skip(plen as int);
    if url.get_char(plen) != 's' {
        proof {
            assert(id_view[0] != 's');
        }
        return Err(AdvertError::InvalidUrl);
    }
    if url.get_char(plen + 1) != 'm' {
        proof {
            assert(id_view[1] != 'm');
        }
        return Err(AdvertError::InvalidUrl);
    }
    let mut j: usize = plen + 2;
    while j < ulen
        invariant
            plen + 2 <= j <= ulen,
            forall|m: int| plen + 2 <= m < j ==> spec_is_digit(#[trigger] url@[m]),
        decreases ulen - j,
    {
        let c = url.get_char(j);
        if c < '0' || c > '9' {
            proof {
                assert(id_view[j - plen] == url@[j as int]);
                assert(!spec_is_digit(id_view[j - plen]));
            }
            return Err(AdvertError::InvalidUrl);
        }
        j = j + 1;
    }
    proof {
        assert forall|m: int| 2 <= m < id_view.len() implies spec_is_digit(
            #[trigger] id_view[m],
        ) by {
            assert(id_view[m] == url@[m + plen]);
        }
        assert(id_view[0] == 's');
        assert(id_view[1] == 'm');
        assert(spec_valid_video_id(id_view));
    }
    let id = url.substring_char(plen, ulen);
    proof {
        assert(id@ =~= id_view);
    }
    Ok(id.to_owned())
}

} // verus!
