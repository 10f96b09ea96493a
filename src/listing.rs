//! The catalog listing of one folder level: which backend entries are videos,
//! how they are ordered, and which of them a page shows.
use vstd::prelude::*;
use vstd::string::StringSliceAdditionalSpecFns;
use vstd::utf8::encode_utf8;

use crate::error::GatewayError;
use crate::keycodec::{encode_key, encoded_key};
use crate::pagination::{
    effective_page, effective_page_size, lemma_page_past_end, page_of, page_size_of, page_window,
    paginate, total_pages_of, window_of, Pagination,
};
use crate::video::{is_video, is_video_key};

verus! {

/// Path under which a video is streamed; the encoded key follows it.
pub open spec fn stream_path() -> Seq<char> {
    "/api/videos/stream/"@
}

/// Lexicographic order on bytes, a proper prefix coming first.
pub open spec fn bytes_lt(a: Seq<u8>, b: Seq<u8>) -> bool
    decreases a.len(),
{
    if a.len() == 0 {
        b.len() > 0
    } else if b.len() == 0 {
        false
    } else if a[0] != b[0] {
        a[0] < b[0]
    } else {
        bytes_lt(a.drop_first(), b.drop_first())
    }
}

/// Order of keys: by their UTF-8 bytes, which is the order of their code points.
pub open spec fn key_lt(a: Seq<char>, b: Seq<char>) -> bool {
    bytes_lt(encode_utf8(a), encode_utf8(b))
}

/// One object as the backend reports it.
#[derive(Debug)]
pub struct RawObject {
    pub key: Option<String>,
    pub size: Option<i64>,
    pub last_modified: Option<String>,
}

pub struct RawObjectView {
    pub key: Option<Seq<char>>,
    pub size: Option<i64>,
    pub last_modified: Option<Seq<char>>,
}

/// One video of a listing.
#[derive(Debug)]
pub struct VideoItem {
    pub key: String,
    pub size: i64,
    pub last_modified: Option<String>,
    pub stream_url: String,
}

pub struct VideoView {
    pub key: Seq<char>,
    pub size: i64,
    pub last_modified: Option<Seq<char>>,
    pub stream_url: Seq<char>,
}

pub open spec fn opt_view(o: Option<String>) -> Option<Seq<char>> {
    match o {
        Some(s) => Some(s@),
        None => None,
    }
}

impl View for RawObject {
    type V = RawObjectView;

    open spec fn view(&self) -> RawObjectView {
        RawObjectView {
            key: opt_view(self.key),
            size: self.size,
            last_modified: opt_view(self.last_modified),
        }
    }
}

impl View for VideoItem {
    type V = VideoView;

    open spec fn view(&self) -> VideoView {
        VideoView {
            key: self.key@,
            size: self.size,
            last_modified: opt_view(self.last_modified),
            stream_url: self.stream_url@,
        }
    }
}

pub open spec fn object_views(s: Seq<RawObject>) -> Seq<RawObjectView> {
    s.map_values(|o: RawObject| o@)
}

pub open spec fn video_views(s: Seq<VideoItem>) -> Seq<VideoView> {
    s.map_values(|v: VideoItem| v@)
}

pub open spec fn string_views(s: Seq<String>) -> Seq<Seq<char>> {
    s.map_values(|v: String| v@)
}

pub open spec fn opt_string_views(s: Seq<Option<String>>) -> Seq<Option<Seq<char>>> {
    s.map_values(|v: Option<String>| opt_view(v))
}

/// A backend object is listed when it has a key that names a video.
pub open spec fn is_listed(o: RawObjectView) -> bool {
    o.key is Some && is_video(o.key->Some_0)
}

/// The entry for a listed object: a missing size counts as 0.
pub open spec fn video_of(o: RawObjectView) -> VideoView {
    let k = o.key->Some_0;
    VideoView {
        key: k,
        size: match o.size {
            Some(s) => s,
            None => 0,
        },
        last_modified: o.last_modified,
        stream_url: stream_path() + encoded_key(k),
    }
}

/// The entries for the listed objects, in the backend's order.
pub open spec fn videos_of(s: Seq<RawObjectView>) -> Seq<VideoView>
    decreases s.len(),
{
    if s.len() == 0 {
        Seq::empty()
    } else {
        let r = videos_of(s.drop_last());
        if is_listed(s.last()) {
            r.push(video_of(s.last()))
        } else {
            r
        }
    }
}

/// `x` placed before the first entry whose key is greater.
pub open spec fn insert_by_key(s: Seq<VideoView>, x: VideoView) -> Seq<VideoView>
    decreases s.len(),
{
    if s.len() == 0 {
        seq![x]
    } else if key_lt(x.key, s[0].key) {
        seq![x] + s
    } else {
        seq![s[0]] + insert_by_key(s.drop_first(), x)
    }
}

/// The entries in ascending order of key (stable).
pub open spec fn sort_by_key(s: Seq<VideoView>) -> Seq<VideoView>
    decreases s.len(),
{
    if s.len() == 0 {
        Seq::empty()
    } else {
        insert_by_key(sort_by_key(s.drop_last()), s.last())
    }
}

/// The keys of the folders that the backend reports, absent ones left out.
pub open spec fn folders_of(s: Seq<Option<Seq<char>>>) -> Seq<Seq<char>>
    decreases s.len(),
{
    if s.len() == 0 {
        Seq::empty()
    } else {
        let r = folders_of(s.drop_last());
        match s.last() {
            Some(f) => r.push(f),
            None => r,
        }
    }
}

/// Whether key `a` comes before key `b`, comparing their bytes.
pub fn key_less(a: &str, b: &str) -> (r: bool)
    ensures
        r == key_lt(a@, b@),
{
    let x = a.as_bytes();
    let y = b.as_bytes();
    let n = x.len();
    let m = y.len();
    let mut i: usize = 0;
    assert(x@.subrange(0, n as int) =~= x@);
    assert(y@.subrange(0, m as int) =~= y@);
    while i < n && i < m
        invariant
            n == x@.len(),
            m == y@.len(),
            x@ == a.spec_bytes(),
            y@ == b.spec_bytes(),
            i <= n,
            i <= m,
            bytes_lt(x@, y@) == bytes_lt(
                x@.subrange(i as int, n as int),
                y@.subrange(i as int, m as int),
            ),
        decreases n - i,
    {
        if x[i] != y[i] {
            assert(x@.subrange(i as int, n as int)[0] == x@[i as int]);
            assert(y@.subrange(i as int, m as int)[0] == y@[i as int]);
            return x[i] < y[i];
        }
        assert(x@.subrange(i as int, n as int).drop_first() =~= x@.subrange(i + 1, n as int));
        assert(y@.subrange(i as int, m as int).drop_first() =~= y@.subrange(i + 1, m as int));
        i = i + 1;
    }
    i == n && i < m
}

fn clone_opt(o: &Option<String>) -> (r: Option<String>)
    ensures
        opt_view(r) == opt_view(*o),
{
    match o {
        Some(s) => Some(s.clone()),
        None => None,
    }
}

/// The listing entry for an object with key `key`.
pub fn make_video(key: &String, o: &RawObject) -> (r: VideoItem)
    requires
        o@.key == Some(key@),
    ensures
        r@ == video_of(o@),
{
    let enc = encode_key(key.as_str());
    let url = String::from_str("/api/videos/stream/").concat(enc.as_str());
    let size: i64 = match o.size {
        Some(s) => s,
        None => 0,
    };
    VideoItem { key: key.clone(), size, last_modified: clone_opt(&o.last_modified), stream_url: url }
}

proof fn lemma_insert_at(s: Seq<VideoView>, x: VideoView, p: int)
    requires
        0 <= p <= s.len(),
        forall|j: int| 0 <= j < p ==> !key_lt(x.key, #[trigger] s[j].key),
        p < s.len() ==> key_lt(x.key, s[p].key),
    ensures
        insert_by_key(s, x) == s.insert(p, x),
    decreases p,
{
    if p == 0 {
        if s.len() == 0 {
            assert(seq![x] =~= s.insert(0, x));
        } else {
            assert(seq![x] + s =~= s.insert(0, x));
        }
    } else {
        let t = s.drop_first();
        assert forall|j: int| 0 <= j < p - 1 implies !key_lt(x.key, #[trigger] t[j].key) by {
            assert(t[j] == s[j + 1]);
        }
        lemma_insert_at(t, x, p - 1);
        assert(seq![s[0]] + t.insert(p - 1, x) =~= s.insert(p, x));
    }
}

/// Puts `x` into `v` before the first entry whose key is greater.
fn insert_video(v: &mut Vec<VideoItem>, x: VideoItem)
    ensures
        video_views(final(v)@) == insert_by_key(video_views(old(v)@), x@),
{
    let n = v.len();
    let mut p: usize = 0;
    while p < n
        invariant
            n == v@.len(),
            p <= n,
            forall|j: int| 0 <= j < p ==> !key_lt(x@.key, #[trigger] v@[j]@.key),
        ensures
            p <= n,
            forall|j: int| 0 <= j < p ==> !key_lt(x@.key, #[trigger] v@[j]@.key),
            p < n ==> key_lt(x@.key, v@[p as int]@.key),
        decreases n - p,
    {
        if key_less(x.key.as_str(), v[p].key.as_str()) {
            break;
        }
        p = p + 1;
    }
    let ghost s = video_views(v@);
    proof {
        lemma_insert_at(s, x@, p as int);
    }
    v.insert(p, x);
    assert(video_views(v@) =~= s.insert(p as int, x@));
}

/// The videos among the backend's objects, sorted by key.
pub fn collect_videos(objects: &Vec<RawObject>) -> (r: Vec<VideoItem>)
    ensures
        video_views(r@) == sort_by_key(videos_of(object_views(objects@))),
{
    let mut r: Vec<VideoItem> = Vec::new();
    let n = objects.len();
    let mut i: usize = 0;
    while i < n
        invariant
            n == objects@.len(),
            i <= n,
            video_views(r@) == sort_by_key(
                videos_of(object_views(objects@).subrange(0, i as int)),
            ),
        decreases n - i,
    {
        let ghost all = object_views(objects@);
        let ghost before = all.subrange(0, i as int);
        let ghost vs = videos_of(before);
        assert(all.subrange(0, i + 1).drop_last() =~= before);
        let o = &objects[i];
        assert(all.subrange(0, i + 1).last() == o@);
        match &o.key {
            Some(k) => {
                if is_video_key(k.as_str()) {
                    let item = make_video(k, o);
                    assert(videos_of(all.subrange(0, i + 1)) == vs.push(item@));
                    assert(vs.push(item@).drop_last() =~= vs);
                    insert_video(&mut r, item);
                }
            },
            None => {},
        }
        i = i + 1;
    }
    assert(object_views(objects@).subrange(0, n as int) =~= object_views(objects@));
    r
}

/// The folder keys that the backend reports, in its order.
pub fn collect_folders(prefixes: &Vec<Option<String>>) -> (r: Vec<String>)
    ensures
        string_views(r@) == folders_of(opt_string_views(prefixes@)),
{
    let mut r: Vec<String> = Vec::new();
    let n = prefixes.len();
    let mut i: usize = 0;
    while i < n
        invariant
            n == prefixes@.len(),
            i <= n,
            string_views(r@) == folders_of(opt_string_views(prefixes@).subrange(0, i as int)),
        decreases n - i,
    {
        let ghost all = opt_string_views(prefixes@);
        assert(all.subrange(0, i + 1).drop_last() =~= all.subrange(0, i as int));
        match &prefixes[i] {
            Some(f) => {
                let ghost old_r = r@;
                r.push(f.clone());
                assert(string_views(r@) =~= string_views(old_r).push(f@));
            },
            None => {},
        }
        i = i + 1;
    }
    assert(opt_string_views(prefixes@).subrange(0, n as int) =~= opt_string_views(prefixes@));
    r
}

/// Most raw entries asked of the backend for one listing.
pub const MAX_KEYS: i32 = 1000;

/// The query of a listing request; each part may be absent.
#[derive(Debug)]
pub struct ListQuery {
    pub page: Option<usize>,
    pub page_size: Option<usize>,
    pub prefix: Option<String>,
}

/// What the backend is asked for: one level under `prefix`, split at
/// `delimiter`, at most `max_keys` entries.
#[derive(Debug)]
pub struct ListRequest {
    pub prefix: String,
    pub delimiter: String,
    pub max_keys: i32,
}

/// What the backend answered for one level.
#[derive(Debug)]
pub struct BackendListing {
    pub objects: Vec<RawObject>,
    pub common_prefixes: Vec<Option<String>>,
}

/// One page of a listing.
#[derive(Debug)]
pub struct ListResponse {
    pub prefix: String,
    pub folders: Vec<String>,
    pub videos: Vec<VideoItem>,
    pub pagination: Pagination,
}

/// The prefix of a query, empty when absent.
pub open spec fn prefix_of(q: ListQuery) -> Seq<char> {
    match q.prefix {
        Some(p) => p@,
        None => Seq::empty(),
    }
}

/// All videos of a backend answer, sorted.
pub open spec fn sorted_videos(b: BackendListing) -> Seq<VideoView> {
    sort_by_key(videos_of(object_views(b.objects@)))
}

/// `r` is the page that `q` asks for out of the backend answer `b`: the
/// prefix asked for, the folders as reported, the window of the sorted videos
/// that the page shows, and the paging facts.
pub open spec fn listing_matches(r: ListResponse, q: ListQuery, b: BackendListing) -> bool {
    let all = sorted_videos(b);
    let ps = page_size_of(q.page_size);
    let p = page_of(q.page);
    let w = window_of(all.len() as int, p as int, ps as int);
    let tp = total_pages_of(all.len() as int, ps as int);
    &&& r.prefix@ == prefix_of(q)
    &&& string_views(r.folders@) == folders_of(opt_string_views(b.common_prefixes@))
    &&& video_views(r.videos@) == all.subrange(w.0, w.1)
    &&& r.pagination.page == p
    &&& r.pagination.page_size == ps
    &&& r.pagination.total_videos == all.len()
    &&& r.pagination.total_pages == tp
    &&& r.pagination.has_next_page == (p < tp)
    &&& r.pagination.has_prev_page == (p > 1)
}

/// The backend request for a listing query.
pub fn list_request(query: &ListQuery) -> (r: ListRequest)
    ensures
        r.prefix@ == prefix_of(*query),
        r.delimiter@ == "/"@,
        r.max_keys == MAX_KEYS,
{
    let prefix = match &query.prefix {
        Some(p) => p.clone(),
        None => String::new(),
    };
    ListRequest { prefix, delimiter: String::from_str("/"), max_keys: MAX_KEYS }
}

/// One page of the listing built from the backend's answer: the folders as
/// reported, and the window of the sorted videos that the page shows.
pub fn build_listing(query: &ListQuery, backend: &BackendListing) -> (r: ListResponse)
    ensures
        listing_matches(r, *query, *backend),
{
    let page = effective_page(query.page);
    let page_size = effective_page_size(query.page_size);
    let prefix = match &query.prefix {
        Some(p) => p.clone(),
        None => String::new(),
    };
    let mut videos = collect_videos(&backend.objects);
    let folders = collect_folders(&backend.common_prefixes);
    let total = videos.len();
    let (start, end) = page_window(total, page, page_size);
    let ghost all = videos@;
    videos.truncate(end);
    let shown = videos.split_off(start);
    assert(shown@ =~= all.subrange(start as int, end as int));
    assert(video_views(shown@) =~= video_views(all).subrange(start as int, end as int));
    let pagination = paginate(total, page, page_size);
    ListResponse { prefix, folders, videos: shown, pagination }
}

/// The outcome of a listing request: the page, or a backend failure where
/// the backend did not answer (`None`).
pub fn list_videos(query: &ListQuery, backend: Option<BackendListing>) -> (r: Result<
    ListResponse,
    GatewayError,
>)
    ensures
        backend is Some <==> r is Ok,
        backend is None ==> r->Err_0 == GatewayError::BackendUnavailable,
        backend is Some ==> listing_matches(r->Ok_0, *query, backend->Some_0),
{
    match backend {
        Some(b) => Ok(build_listing(query, &b)),
        None => Err(GatewayError::BackendUnavailable),
    }
}

/// Each key is not below the one before it.
pub open spec fn sorted_by_key(s: Seq<VideoView>) -> bool {
    forall|i: int| 0 <= i < s.len() - 1 ==> !key_lt(#[trigger] s[i + 1].key, s[i].key)
}

proof fn lemma_bytes_lt_asym(a: Seq<u8>, b: Seq<u8>)
    ensures
        bytes_lt(a, b) ==> !bytes_lt(b, a),
    decreases a.len(),
{
    if a.len() > 0 && b.len() > 0 && a[0] == b[0] {
        lemma_bytes_lt_asym(a.drop_first(), b.drop_first());
    }
}

proof fn lemma_insert_by_key(s: Seq<VideoView>, x: VideoView)
    requires
        sorted_by_key(s),
    ensures
        sorted_by_key(insert_by_key(s, x)),
        insert_by_key(s, x).len() == s.len() + 1,
        insert_by_key(s, x).to_multiset() == s.to_multiset().insert(x),
    decreases s.len(),
{
    let r = insert_by_key(s, x);
    if s.len() == 0 {
        assert(r.to_multiset() =~= s.to_multiset().insert(x)) by {
            broadcast use vstd::seq_lib::group_to_multiset_ensures;
            assert(r =~= s.push(x));
        }
    } else if key_lt(x.key, s[0].key) {
        lemma_bytes_lt_asym(encode_utf8(x.key), encode_utf8(s[0].key));
        assert(r == seq![x] + s);
        assert forall|i: int| 0 <= i < r.len() - 1 implies !key_lt(
            #[trigger] r[i + 1].key,
            r[i].key,
        ) by {
            if i > 0 {
                assert(r[i] == s[i - 1] && r[i + 1] == s[i]);
                let k = i - 1;
                assert(!key_lt(s[k + 1].key, s[k].key));
            } else {
                assert(r[0] == x && r[1] == s[0]);
            }
        }
        assert(r.to_multiset() =~= s.to_multiset().insert(x)) by {
            broadcast use vstd::seq_lib::group_to_multiset_ensures;
            vstd::seq_lib::lemma_multiset_commutative(seq![x], s);
        }
    } else {
        let t = s.drop_first();
        assert forall|i: int| 0 <= i < t.len() - 1 implies !key_lt(
            #[trigger] t[i + 1].key,
            t[i].key,
        ) by {
            assert(t[i] == s[i + 1] && t[i + 1] == s[i + 2]);
            let k = i + 1;
            assert(!key_lt(s[k + 1].key, s[k].key));
        }
        lemma_insert_by_key(t, x);
        let u = insert_by_key(t, x);
        assert(r == seq![s[0]] + u);
        assert(u[0] == x || (t.len() > 0 && u[0] == s[1]));
        assert forall|i: int| 0 <= i < r.len() - 1 implies !key_lt(
            #[trigger] r[i + 1].key,
            r[i].key,
        ) by {
            if i > 0 {
                assert(r[i] == u[i - 1] && r[i + 1] == u[i]);
                let k = i - 1;
                assert(!key_lt(u[k + 1].key, u[k].key));
            } else {
                assert(r[0] == s[0] && r[1] == u[0]);
                if u[0] != x {
                    assert(!key_lt(s[0int + 1].key, s[0int].key));
                }
            }
        }
        assert(r.to_multiset() =~= s.to_multiset().insert(x)) by {
            broadcast use vstd::seq_lib::group_to_multiset_ensures;
            vstd::seq_lib::lemma_multiset_commutative(seq![s[0]], u);
            vstd::seq_lib::lemma_multiset_commutative(seq![s[0]], t);
            assert(s =~= seq![s[0]] + t);
        }
    }
}

/// Sorting by key gives the same entries, each key not below the one before it.
pub proof fn lemma_sort_by_key(s: Seq<VideoView>)
    ensures
        sorted_by_key(sort_by_key(s)),
        sort_by_key(s).to_multiset() == s.to_multiset(),
    decreases s.len(),
{
    if s.len() > 0 {
        lemma_sort_by_key(s.drop_last());
        lemma_insert_by_key(sort_by_key(s.drop_last()), s.last());
        broadcast use vstd::seq_lib::group_to_multiset_ensures;

        assert(s.drop_last().push(s.last()) =~= s);
        assert(s.to_multiset() == s.drop_last().to_multiset().insert(s.last()));
        assert(sort_by_key(s) == insert_by_key(sort_by_key(s.drop_last()), s.last()));
    } else {
        assert(s =~= Seq::<VideoView>::empty());
    }
}

/// A page of a listing shows its videos in ascending order of key.
pub proof fn lemma_listing_sorted(r: ListResponse, q: ListQuery, b: BackendListing)
    requires
        listing_matches(r, q, b),
    ensures
        sorted_by_key(video_views(r.videos@)),
{
    let all = sorted_videos(b);
    lemma_sort_by_key(videos_of(object_views(b.objects@)));
    let w = window_of(
        all.len() as int,
        page_of(q.page) as int,
        page_size_of(q.page_size) as int,
    );
    let v = video_views(r.videos@);
    assert forall|i: int| 0 <= i < v.len() - 1 implies !key_lt(
        #[trigger] v[i + 1].key,
        v[i].key,
    ) by {
        let k = w.0 + i;
        assert(v[i] == all[k] && v[i + 1] == all[k + 1]);
    }
}

/// A page past the last one shows no videos and has no next page.
pub proof fn lemma_listing_past_end(r: ListResponse, q: ListQuery, b: BackendListing)
    requires
        listing_matches(r, q, b),
        page_of(q.page) > r.pagination.total_pages,
    ensures
        r.videos@.len() == 0,
        !r.pagination.has_next_page,
{
    let all = sorted_videos(b);
    lemma_page_past_end(
        all.len(),
        page_of(q.page) as nat,
        page_size_of(q.page_size) as nat,
    );
    assert(video_views(r.videos@).len() == r.videos@.len());
}

} // verus!
