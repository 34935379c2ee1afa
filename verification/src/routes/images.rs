//! Listing the stored images of one camera, latest first.

use vstd::prelude::*;
use crate::routes::reply::{bearer_credential, header_bytes, is_error, require_bearer, ApiError, UNAUTHORIZED};
use crate::text::{concat3, text_or};

pub use crate::routes::reply::ErrorResponse;

verus! {

/// How many stored objects one listing asks for.
pub const LIST_LIMIT: i32 = 20;

/// How long a presigned image URL stays valid, in seconds.
pub const PRESIGN_SECONDS: u64 = 3600;

/// One image as the API lists it: its object key and a presigned URL.
pub struct ImageResponse {
    pub key: String,
    pub url: String,
}

/// The token of an images request, or status 401 `Missing token`.
pub fn images_token(header: Option<&[u8]>) -> (r: Result<String, ApiError>)
    ensures
        r is Ok <==> bearer_credential(header_bytes(header)) is Some,
        r matches Ok(t) ==> bearer_credential(header_bytes(header)) == Some(t@),
        r matches Err(e) ==> is_error(e, UNAUTHORIZED, "Missing token"@),
{
    require_bearer(header, "Missing token")
}

/// The bucket that holds the images: the configured one, else the default.
pub fn images_bucket(configured: Option<String>) -> (b: String)
    ensures
        b@ == (match configured {
            Some(c) => c@,
            None => "captured-images-013545650538-us-east-1-an"@,
        }),
{
    text_or(configured, "captured-images-013545650538-us-east-1-an")
}

/// The key prefix of a camera's images.
pub open spec fn image_prefix_of(camera: Seq<char>) -> Seq<char> {
    "images/"@ + camera + "/"@
}

/// The key prefix of a camera's images: `images/{camera}/`.
pub fn image_prefix(camera: &str) -> (p: String)
    ensures
        p@ == image_prefix_of(camera@),
{
    concat3("images/", camera, "/")
}

/// The object keys to presign, from a listing: the keys that are present, in
/// listing order.
pub fn keys_to_sign(listed: Vec<Option<String>>) -> (keys: Vec<String>)
    ensures
        keys@.map_values(|k: String| k@) == listed@.filter(|o: Option<String>| o is Some).map_values(
            |o: Option<String>| o->0@,
        ),
{
    let ghost all = listed@;
    let ghost present = |o: Option<String>| o is Some;
    let ghost text = |o: Option<String>| o->0@;
    let mut rest = listed;
    let mut keys: Vec<String> = Vec::new();
    let ghost mut done: int = 0;
    assert(all.take(0).filter(present) =~= Seq::<Option<String>>::empty()) by {
        reveal(Seq::filter);
    }
    assert(keys@.map_values(|k: String| k@) =~= all.take(0).filter(present).map_values(text));
    while rest.len() > 0
        invariant
            0 <= done <= all.len(),
            rest@ == all.skip(done),
            keys@.map_values(|k: String| k@) == all.take(done).filter(present).map_values(text),
            present == (|o: Option<String>| o is Some),
            text == (|o: Option<String>| o->0@),
        decreases rest@.len(),
    {
        let ghost before = rest@;
        let o = rest.remove(0);
        assert(o == all[done]) by {
            assert(before[0] == all.skip(done)[0]);
        }
        proof {
            assert(all.take(done + 1) =~= all.take(done).push(o));
            all.take(done).lemma_filter_push(o, present);
        }
        let ghost prev = keys@;
        match o {
            Some(k) => {
                keys.push(k);
                assert(keys@.map_values(|k: String| k@) =~= all.take(done + 1).filter(present).map_values(text)) by {
                    assert(keys@ == prev.push(k));
                    let f = all.take(done).filter(present);
                    assert(all.take(done + 1).filter(present) == f.push(o));
                    assert(f.push(o).map_values(text) =~= f.map_values(text).push(k@));
                    assert(prev.push(k).map_values(|k: String| k@) =~= prev.map_values(|k: String| k@).push(k@));
                }
            },
            None => {},
        }
        proof {
            assert(rest@ =~= all.skip(done + 1));
            done = done + 1;
        }
    }
    assert(all.take(done) =~= all);
    keys
}

/// The images of a listing, latest first: the listing's order reversed.
pub fn latest_first(images: Vec<ImageResponse>) -> (r: Vec<ImageResponse>)
    ensures
        r@ == images@.reverse(),
{
    let ghost given = images@;
    let mut rest = images;
    let mut r: Vec<ImageResponse> = Vec::new();
    while rest.len() > 0
        invariant
            rest@ == given.take(rest@.len() as int),
            r@ == given.skip(rest@.len() as int).reverse(),
            rest@.len() <= given.len(),
        decreases rest@.len(),
    {
        let ghost before = rest@;
        let x = rest.pop().unwrap();
        assert(x == given[rest@.len() as int]);
        r.push(x);
        assert(rest@ =~= given.take(rest@.len() as int));
        assert(r@ =~= given.skip(rest@.len() as int).reverse());
    }
    assert(given.skip(0) =~= given);
    r
}

} // verus!
