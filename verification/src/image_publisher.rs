//! The device's image publisher: which files of the watched folder are new
//! images, where each is stored, and the event published about it.

use vstd::prelude::*;
use vstd::utf8::*;
use crate::clock::{compact_utc, compact_utc_text, rfc3339_text, rfc3339_utc};
use crate::routes::images::image_prefix_of;
use crate::text::{concat2, concat3, same_text, utf8_text};

verus! {

/// How often the folder is scanned, in seconds.
pub const SCAN_INTERVAL_SECONDS: u64 = 1;

/// How long a new image is left to settle before it is uploaded, in milliseconds.
pub const SETTLE_MILLIS: u64 = 500;

/// The content type images are stored with.
pub const CONTENT_TYPE: &'static str = "image/jpeg";

/// The event published about a stored image.
pub struct ImageEvent {
    pub device_id: String,
    pub event: String,
    pub image_url: String,
    pub bucket: String,
    pub key: String,
    pub timestamp: String,
}

/// A file of the watched folder: its name's bytes and, when it could be read,
/// its modification time in nanoseconds since the Unix epoch.
pub struct Snapshot {
    pub name: Vec<u8>,
    pub modified: Option<i128>,
}

/// The index of the last `.` in `s`, or -1 when there is none.
pub open spec fn last_dot(s: Seq<u8>) -> int
    decreases s.len(),
{
    if s.len() == 0 {
        -1
    } else if s.last() == 46 {
        s.len() - 1
    } else {
        last_dot(s.drop_last())
    }
}

/// The extension of a file name, as `Path::extension` gives it: the part after
/// the last `.`, when there is a `.` that is not the name's first byte (and
/// the name is not `..`).
pub open spec fn extension_of(name: Seq<u8>) -> Option<Seq<u8>> {
    if name == seq![46u8, 46u8] || last_dot(name) <= 0 {
        None
    } else {
        Some(name.skip(last_dot(name) + 1))
    }
}

/// The text of a file name's extension: the extension when it is UTF-8, else empty.
pub open spec fn extension_text(name: Seq<u8>) -> Seq<char> {
    match extension_of(name) {
        Some(e) => if valid_utf8(e) {
            decode_utf8(e)
        } else {
            Seq::empty()
        },
        None => Seq::empty(),
    }
}

/// The lower-case form of a text, as `str::to_lowercase` writes it.
pub uninterp spec fn lowercase_text(s: Seq<char>) -> Seq<char>;

/// Calls `str::to_lowercase`. Trusted: the result is `lowercase_text` of the
/// argument, a function of the text alone.
#[verifier::external_body]
fn lowercase(s: &str) -> (r: String)
    ensures
        r@ == lowercase_text(s@),
{
    s.to_lowercase()
}

/// Whether a lower-cased extension is one of an image: `jpg`, `jpeg` or `png`.
pub open spec fn is_image_extension(lower: Seq<char>) -> bool {
    lower == "jpg"@ || lower == "jpeg"@ || lower == "png"@
}

/// Whether a file name names an image: it has a UTF-8 extension that,
/// lower-cased, is `jpg`, `jpeg` or `png` (a name without one lower-cases to
/// empty text, which is none of these).
pub open spec fn is_image_name(name: Seq<u8>) -> bool {
    extension_text(name).len() > 0 && is_image_extension(lowercase_text(extension_text(name)))
}

proof fn lemma_last_dot_bounds(s: Seq<u8>)
    ensures
        -1 <= last_dot(s) < s.len(),
    decreases s.len(),
{
    if s.len() > 0 {
        lemma_last_dot_bounds(s.drop_last());
    }
}

fn find_last_dot(name: &[u8]) -> (d: Option<usize>)
    ensures
        match d {
            Some(k) => k == last_dot(name@),
            None => last_dot(name@) == -1,
        },
{
    let mut i: usize = name.len();
    assert(name@.take(i as int) =~= name@);
    while i > 0
        invariant
            i <= name@.len(),
            last_dot(name@) == last_dot(name@.take(i as int)),
        decreases i,
    {
        let ghost t = name@.take(i as int);
        assert(t.drop_last() =~= name@.take(i - 1));
        assert(t.last() == name@[i - 1]);
        if name[i - 1] == 46 {
            return Some(i - 1);
        }
        i = i - 1;
    }
    assert(name@.take(0) =~= Seq::<u8>::empty());
    None
}

/// The extension of a file name, as `Path::extension` gives it.
pub fn file_extension(name: &[u8]) -> (e: Option<Vec<u8>>)
    ensures
        e is Some <==> extension_of(name@) is Some,
        e matches Some(v) ==> extension_of(name@) == Some(v@),
{
    if name.len() == 2 && name[0] == 46 && name[1] == 46 {
        assert(name@ =~= seq![46u8, 46u8]);
        return None;
    }
    let d = match find_last_dot(name) {
        None => return None,
        Some(d) => d,
    };
    if d == 0 {
        return None;
    }
    proof {
        lemma_last_dot_bounds(name@);
    }
    let start = d + 1;
    let mut e: Vec<u8> = Vec::new();
    let mut i: usize = start;
    while i < name.len()
        invariant
            start <= i <= name@.len(),
            e@ == name@.subrange(start as int, i as int),
        decreases name@.len() - i,
    {
        e.push(name[i]);
        i = i + 1;
        assert(e@ =~= name@.subrange(start as int, i as int));
    }
    assert(e@ =~= name@.skip(start as int));
    Some(e)
}

/// Whether a file name names an image (`jpg`, `jpeg` or `png`, in any case).
pub fn is_image_file(name: &[u8]) -> (r: bool)
    ensures
        r == is_image_name(name@),
{
    let text = match file_extension(name) {
        Some(e) => match utf8_text(e.as_slice()) {
            Some(t) => t,
            None => String::new(),
        },
        None => String::new(),
    };
    if text.as_str().unicode_len() == 0 {
        return false;
    }
    let lower = lowercase(text.as_str());
    same_text(lower.as_str(), "jpg") || same_text(lower.as_str(), "jpeg") || same_text(
        lower.as_str(),
        "png",
    )
}

/// Whether a file modified at `t` is newer than the newest one seen so far.
pub open spec fn is_newer(last_seen: Option<i128>, t: i128) -> bool {
    match last_seen {
        None => true,
        Some(l) => t > l,
    }
}

/// A scan of the folder's files in order, starting from the newest
/// modification time seen so far: each image file with a modification time
/// newer than the newest seen so far is picked and becomes the newest seen.
/// Gives the newest time seen after the scan and the indices of the picked files.
pub open spec fn scan(last_seen: Option<i128>, files: Seq<Snapshot>) -> (Option<i128>, Seq<int>)
    decreases files.len(),
{
    if files.len() == 0 {
        (last_seen, Seq::empty())
    } else {
        let (seen, picked) = scan(last_seen, files.drop_last());
        let f = files.last();
        if is_image_name(f.name@) && f.modified is Some && is_newer(seen, f.modified->0) {
            (f.modified, picked.push(files.len() - 1))
        } else {
            (seen, picked)
        }
    }
}

/// Scans the folder's files in order: picks each image newer than the newest
/// seen so far, and gives the new newest time with the indices of the picks.
pub fn new_snapshots(last_seen: Option<i128>, files: &Vec<Snapshot>) -> (r: (Option<i128>, Vec<usize>))
    ensures
        r.0 == scan(last_seen, files@).0,
        r.1@.map_values(|i: usize| i as int) == scan(last_seen, files@).1,
{
    let mut seen = last_seen;
    let mut picked: Vec<usize> = Vec::new();
    let mut i: usize = 0;
    assert(files@.take(0) =~= Seq::<Snapshot>::empty());
    assert(picked@.map_values(|i: usize| i as int) =~= Seq::<int>::empty());
    while i < files.len()
        invariant
            i <= files@.len(),
            seen == scan(last_seen, files@.take(i as int)).0,
            picked@.map_values(|i: usize| i as int) == scan(last_seen, files@.take(i as int)).1,
        decreases files@.len() - i,
    {
        let f = &files[i];
        assert(files@.take(i + 1).drop_last() =~= files@.take(i as int));
        assert(files@.take(i + 1).last() == files@[i as int]);
        let image = is_image_file(f.name.as_slice());
        let ghost prev = picked@;
        match f.modified {
            Some(t) => {
                let newer = match seen {
                    None => true,
                    Some(l) => t > l,
                };
                if image && newer {
                    seen = Some(t);
                    picked.push(i);
                    assert(picked@.map_values(|i: usize| i as int) =~= prev.map_values(|i: usize| i as int).push(i as int));
                }
            },
            None => {},
        }
        i = i + 1;
    }
    assert(files@.take(i as int) =~= files@);
    (seen, picked)
}

/// The name a file is stored under: its name when it is UTF-8, else `image.jpg`.
pub fn upload_file_name(name: &[u8]) -> (n: String)
    ensures
        n@ == (if valid_utf8(name@) {
            decode_utf8(name@)
        } else {
            "image.jpg"@
        }),
{
    match utf8_text(name) {
        Some(t) => t,
        None => "image.jpg".to_owned(),
    }
}

/// The object key of an image: `images/{device_id}/{stamp}-{file_name}`.
pub open spec fn object_key_of(device_id: Seq<char>, stamp: Seq<char>, file_name: Seq<char>) -> Seq<char> {
    "images/"@ + device_id + "/"@ + stamp + "-"@ + file_name
}

/// The object key of an image stored by a device at a time written as `stamp`.
pub fn object_key(device_id: &str, stamp: &str, file_name: &str) -> (k: String)
    ensures
        k@ == object_key_of(device_id@, stamp@, file_name@),
{
    let head = concat3("images/", device_id, "/");
    let tail = concat3(stamp, "-", file_name);
    let k = concat2(head.as_str(), tail.as_str());
    assert(k@ =~= object_key_of(device_id@, stamp@, file_name@));
    k
}

/// The object key of an image stored by a device at the UTC instant `secs`
/// seconds after the Unix epoch, stamped `%Y%m%dT%H%M%S`.
pub fn object_key_at(device_id: &str, file_name: &str, secs: i64) -> (k: Option<String>)
    ensures
        k is Some <==> compact_utc_text(secs) is Some,
        k matches Some(key) ==> key@ == object_key_of(device_id@, compact_utc_text(secs)->0, file_name@),
{
    match compact_utc(secs) {
        Some(stamp) => Some(object_key(device_id, stamp.as_str(), file_name)),
        None => None,
    }
}

/// The public URL of an object: `https://{bucket}.s3.amazonaws.com/{key}`.
pub fn object_url(bucket: &str, key: &str) -> (u: String)
    ensures
        u@ == "https://"@ + bucket@ + ".s3.amazonaws.com/"@ + key@,
{
    let head = concat3("https://", bucket, ".s3.amazonaws.com/");
    concat2(head.as_str(), key)
}

/// The event about an image stored at `key` in `bucket`, at a time written as text.
pub fn image_event(device_id: &str, image_url: &str, bucket: &str, key: &str, timestamp: String) -> (e: ImageEvent)
    ensures
        e.device_id@ == device_id@,
        e.event@ == "image_captured"@,
        e.image_url@ == image_url@,
        e.bucket@ == bucket@,
        e.key@ == key@,
        e.timestamp == timestamp,
{
    ImageEvent {
        device_id: device_id.to_owned(),
        event: "image_captured".to_owned(),
        image_url: image_url.to_owned(),
        bucket: bucket.to_owned(),
        key: key.to_owned(),
        timestamp,
    }
}

/// The event about a stored image at the UTC instant `secs` seconds and
/// `nanos` nanoseconds after the Unix epoch, its time written in RFC 3339.
pub fn image_event_at(
    device_id: &str,
    image_url: &str,
    bucket: &str,
    key: &str,
    secs: i64,
    nanos: u32,
) -> (e: Option<ImageEvent>)
    ensures
        e is Some <==> rfc3339_text(secs, nanos) is Some,
        e matches Some(ev) ==> ev.device_id@ == device_id@ && ev.event@ == "image_captured"@
            && ev.image_url@ == image_url@ && ev.bucket@ == bucket@ && ev.key@ == key@ && Some(
            ev.timestamp@,
        ) == rfc3339_text(secs, nanos),
{
    match rfc3339_utc(secs, nanos) {
        Some(t) => Some(image_event(device_id, image_url, bucket, key, t)),
        None => None,
    }
}

/// The modification time of the picked file `j` of a scan.
pub open spec fn picked_time(files: Seq<Snapshot>, picked: Seq<int>, j: int) -> i128 {
    files[picked[j]].modified->0
}

/// What a scan picks: image files with a modification time, in folder order,
/// each newer than the newest time seen before the scan and than every file
/// picked before it; the newest time seen never goes back, and after a scan
/// that picked files it is the time of the last one picked.
pub proof fn lemma_scan_picks_newer_images(last_seen: Option<i128>, files: Seq<Snapshot>)
    ensures
        ({
            let (seen, picked) = scan(last_seen, files);
            &&& forall|j: int|
                0 <= j < picked.len() ==> 0 <= #[trigger] picked[j] < files.len() && is_image_name(
                    files[picked[j]].name@,
                ) && files[picked[j]].modified is Some && is_newer(
                    last_seen,
                    picked_time(files, picked, j),
                )
            &&& forall|a: int, b: int|
                0 <= a < b < picked.len() ==> #[trigger] picked[a] < #[trigger] picked[b]
                    && picked_time(files, picked, a) < picked_time(files, picked, b)
            &&& last_seen matches Some(l) ==> (seen matches Some(t) && t >= l)
            &&& picked.len() == 0 ==> seen == last_seen
            &&& picked.len() > 0 ==> seen == files[picked.last()].modified
        }),
    decreases files.len(),
{
    if files.len() > 0 {
        let rest = files.drop_last();
        lemma_scan_picks_newer_images(last_seen, rest);
        let (seen0, picked0) = scan(last_seen, rest);
        assert forall|j: int| 0 <= j < picked0.len() implies files[#[trigger] picked0[j]] == rest[picked0[j]] by {
        }
        let (seen, picked) = scan(last_seen, files);
        if picked.len() > picked0.len() {
            assert(picked == picked0.push(files.len() - 1));
            assert forall|j: int| 0 <= j < picked.len() implies 0 <= #[trigger] picked[j] < files.len()
                && is_image_name(files[picked[j]].name@) && files[picked[j]].modified is Some
                && is_newer(last_seen, picked_time(files, picked, j)) by {
                if j < picked0.len() {
                    assert(picked[j] == picked0[j]);
                } else {
                    if picked0.len() > 0 {
                        let last = picked0.len() - 1;
                        assert(picked0[last] == picked[last]);
                    }
                }
            }
            assert forall|a: int, b: int| 0 <= a < b < picked.len() implies #[trigger] picked[a]
                < #[trigger] picked[b] && picked_time(files, picked, a) < picked_time(files, picked, b) by {
                assert(picked[a] == picked0[a]);
                if b < picked0.len() {
                    assert(picked[b] == picked0[b]);
                } else {
                    let last = picked0.len() - 1;
                    if a < last {
                        assert(picked0[a] < picked0[last]);
                    }
                }
            }
        } else {
            assert(picked == picked0);
        }
    }
}

/// Every image a device stores lies under the key prefix that the backend
/// lists for that device's camera.
pub proof fn lemma_stored_image_is_listed(device_id: Seq<char>, stamp: Seq<char>, file_name: Seq<char>)
    ensures
        object_key_of(device_id, stamp, file_name).take(image_prefix_of(device_id).len() as int)
            == image_prefix_of(device_id),
{
    let k = object_key_of(device_id, stamp, file_name);
    let p = image_prefix_of(device_id);
    assert(k == p + (stamp + "-"@ + file_name)) by {
        assert(k =~= p + (stamp + "-"@ + file_name));
    }
    assert(k.take(p.len() as int) =~= p);
}

/// The indices `p`, shifted by `n`.
pub open spec fn shifted(p: Seq<int>, n: int) -> Seq<int> {
    p.map_values(|i: int| i + n)
}

/// Scanning one listing and then the next, carrying the newest time seen
/// from one scan to the next, picks exactly what one scan of both listings
/// in turn picks. With `lemma_scan_picks_newer_images`, the files picked
/// over any run of scans have strictly increasing modification times, each
/// newer than the newest seen before the run.
pub proof fn lemma_scans_compose(last_seen: Option<i128>, a: Seq<Snapshot>, b: Seq<Snapshot>)
    ensures
        ({
            let first = scan(last_seen, a);
            let second = scan(first.0, b);
            scan(last_seen, a + b) == (second.0, first.1 + shifted(second.1, a.len() as int))
        }),
    decreases b.len(),
{
    let first = scan(last_seen, a);
    if b.len() == 0 {
        assert(a + b =~= a);
        assert(first.1 + shifted(Seq::<int>::empty(), a.len() as int) =~= first.1);
    } else {
        let rest = b.drop_last();
        lemma_scans_compose(last_seen, a, rest);
        assert((a + b).drop_last() =~= a + rest);
        assert((a + b).last() == b.last());
        let inner = scan(first.0, rest);
        let f = b.last();
        if is_image_name(f.name@) && f.modified is Some && is_newer(inner.0, f.modified->0) {
            assert(shifted(inner.1.push(b.len() - 1), a.len() as int) =~= shifted(inner.1, a.len() as int).push(
                (a + b).len() - 1,
            ));
            assert(first.1 + shifted(inner.1, a.len() as int).push((a + b).len() - 1) =~= (first.1
                + shifted(inner.1, a.len() as int)).push((a + b).len() - 1));
        }
    }
}

/// An image's object key keeps the file's name as given: it is `images/`,
/// the device id, `/`, the stamp and `-`, followed by the file name itself,
/// unchanged, as its last characters.
pub proof fn lemma_object_key_keeps_file_name(device_id: Seq<char>, stamp: Seq<char>, file_name: Seq<char>)
    ensures
        ({
            let k = object_key_of(device_id, stamp, file_name);
            let head = seq!['i', 'm', 'a', 'g', 'e', 's', '/'] + device_id + seq!['/'] + stamp + seq!['-'];
            &&& k.len() == head.len() + file_name.len()
            &&& k.take(head.len() as int) == head
            &&& k.skip(k.len() - file_name.len()) == file_name
        }),
{
    reveal_strlit("images/");
    reveal_strlit("/");
    reveal_strlit("-");
    let k = object_key_of(device_id, stamp, file_name);
    let head = seq!['i', 'm', 'a', 'g', 'e', 's', '/'] + device_id + seq!['/'] + stamp + seq!['-'];
    assert(k =~= head + file_name);
    assert(k.take(head.len() as int) =~= head);
    assert(k.skip(k.len() - file_name.len()) =~= file_name);
}

/// A file is an image exactly when its extension text is not empty and,
/// lower-cased, reads `jpg`, `jpeg` or `png`; so the answer depends only on
/// the lower-cased extension, and names whose extensions differ only in
/// letter case (`x.JPG`, `x.jpg`) get the same answer.
pub proof fn lemma_image_name_by_lowercase_extension(a: Seq<u8>, b: Seq<u8>)
    ensures
        is_image_name(a) <==> (extension_text(a).len() > 0 && (lowercase_text(extension_text(a))
            == seq!['j', 'p', 'g'] || lowercase_text(extension_text(a)) == seq!['j', 'p', 'e', 'g']
            || lowercase_text(extension_text(a)) == seq!['p', 'n', 'g'])),
        extension_text(a).len() > 0 && extension_text(b).len() > 0 && lowercase_text(
            extension_text(a),
        ) == lowercase_text(extension_text(b)) ==> is_image_name(a) == is_image_name(b),
{
    reveal_strlit("jpg");
    reveal_strlit("jpeg");
    reveal_strlit("png");
    assert("jpg"@ =~= seq!['j', 'p', 'g']);
    assert("jpeg"@ =~= seq!['j', 'p', 'e', 'g']);
    assert("png"@ =~= seq!['p', 'n', 'g']);
}

/// Whether a file is an image whose modification time could be read.
pub open spec fn timed_image(f: Snapshot) -> bool {
    is_image_name(f.name@) && f.modified is Some
}

/// Whether file `i` of a listing is an image with a readable time that is
/// newer than the newest time seen before the scan and than every earlier
/// image of the listing.
pub open spec fn newer_than_all_before(last_seen: Option<i128>, files: Seq<Snapshot>, i: int) -> bool {
    &&& timed_image(files[i])
    &&& is_newer(last_seen, files[i].modified->0)
    &&& forall|j: int|
        0 <= j < i && timed_image(#[trigger] files[j]) ==> files[j].modified->0
            < files[i].modified->0
}

/// A scan picks a file exactly when it is an image with a readable time
/// newer than the newest time seen before the scan and than every earlier
/// image of the listing; no other file is picked, and none of these is left
/// out. After the scan the newest time seen is the latest of the time seen
/// before and the times of all images of the listing.
pub proof fn lemma_scan_picks_exactly_newer_images(last_seen: Option<i128>, files: Seq<Snapshot>)
    ensures
        forall|i: int|
            0 <= i < files.len() ==> (scan(last_seen, files).1.contains(i) <==> newer_than_all_before(
                last_seen,
                files,
                i,
            )),
        forall|k: int|
            0 <= k < scan(last_seen, files).1.len() ==> 0 <= #[trigger] scan(last_seen, files).1[k]
                < files.len(),
        match scan(last_seen, files).0 {
            None => last_seen is None && forall|j: int|
                0 <= j < files.len() ==> !timed_image(#[trigger] files[j]),
            Some(s) => (last_seen matches Some(l) ==> l <= s) && (forall|j: int|
                0 <= j < files.len() && timed_image(#[trigger] files[j]) ==> files[j].modified->0
                    <= s) && (last_seen == Some(s) || exists|j: int|
                0 <= j < files.len() && timed_image(#[trigger] files[j]) && files[j].modified->0
                    == s),
        },
    decreases files.len(),
{
    if files.len() > 0 {
        let n = files.len() - 1;
        let rest = files.drop_last();
        lemma_scan_picks_exactly_newer_images(last_seen, rest);
        let (seen0, p0) = scan(last_seen, rest);
        let f = files[n];
        assert(files.last() == f);
        assert forall|j: int| 0 <= j < n implies #[trigger] files[j] == rest[j] by {}
        let (seen, p) = scan(last_seen, files);
        if timed_image(f) && is_newer(seen0, f.modified->0) {
            let t = f.modified->0;
            assert(p == p0.push(n));
            assert(seen == Some(t));
            assert forall|i: int| 0 <= i < files.len() implies (p.contains(i) <==> newer_than_all_before(
                last_seen,
                files,
                i,
            )) by {
                if i < n {
                    assert(files[i] == rest[i]);
                    assert(newer_than_all_before(last_seen, files, i) == newer_than_all_before(
                        last_seen,
                        rest,
                        i,
                    ));
                    if p0.contains(i) {
                        let k = choose|k: int| 0 <= k < p0.len() && p0[k] == i;
                        assert(p[k] == i);
                    }
                    if p.contains(i) {
                        let k = choose|k: int| 0 <= k < p.len() && p[k] == i;
                        assert(k < p0.len());
                        assert(p0[k] == i);
                    }
                } else {
                    assert(p[p0.len() as int] == n);
                    assert forall|j: int| 0 <= j < i && timed_image(#[trigger] files[j]) implies files[j].modified->0
                        < files[i].modified->0 by {
                        assert(files[j] == rest[j]);
                        assert(timed_image(rest[j]));
                    }
                }
            }
            assert forall|k: int| 0 <= k < p.len() implies 0 <= #[trigger] p[k] < files.len() by {
                if k < p0.len() {
                    assert(p[k] == p0[k]);
                }
            }
            assert forall|j: int| 0 <= j < files.len() && timed_image(#[trigger] files[j]) implies files[j].modified->0
                <= t by {
                if j < n {
                    assert(files[j] == rest[j]);
                }
            }
            assert(timed_image(files[n]) && files[n].modified->0 == t);
        } else {
            assert(p == p0);
            assert(seen == seen0);
            assert forall|i: int| 0 <= i < files.len() implies (p.contains(i) <==> newer_than_all_before(
                last_seen,
                files,
                i,
            )) by {
                if i < n {
                    assert(files[i] == rest[i]);
                    assert(newer_than_all_before(last_seen, files, i) == newer_than_all_before(
                        last_seen,
                        rest,
                        i,
                    ));
                } else {
                    if p.contains(i) {
                        let k = choose|k: int| 0 <= k < p.len() && p[k] == i;
                        assert(p0[k] < rest.len());
                    }
                    if timed_image(f) {
                        let t = f.modified->0;
                        let s0 = seen0->0;
                        if last_seen != Some(s0) {
                            let j = choose|j: int|
                                0 <= j < rest.len() && timed_image(#[trigger] rest[j])
                                    && rest[j].modified->0 == s0;
                            assert(files[j] == rest[j]);
                            assert(timed_image(files[j]));
                        }
                    }
                }
            }
            assert forall|j: int| 0 <= j < files.len() && timed_image(#[trigger] files[j]) implies (seen
                matches Some(s) && files[j].modified->0 <= s) by {
                if j < n {
                    assert(files[j] == rest[j]);
                }
            }
            if seen0 is Some {
                let s0 = seen0->0;
                if last_seen != Some(s0) {
                    let j = choose|j: int|
                        0 <= j < rest.len() && timed_image(#[trigger] rest[j]) && rest[j].modified->0
                            == s0;
                    assert(files[j] == rest[j]);
                    assert(timed_image(files[j]));
                }
            }
        }
    }
}

} // verus!
