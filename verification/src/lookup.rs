use vstd::prelude::*;
use crate::store::TileStore;

verus! {

/// The (name, value) pairs that the `application/x-www-form-urlencoded`
/// syntax gives for a query string, names and values percent-decoded,
/// in order of appearance.
pub uninterp spec fn query_pairs_of(q: Seq<u8>) -> Seq<(Seq<u8>, Seq<u8>)>;

/// Relies on url::form_urlencoded::parse: splits a query string on
/// `&` and `=` and percent-decodes each name and value. The result is
/// a function of the input bytes alone, and an empty input yields no
/// pairs.
#[verifier::external_body]
fn parse_query_raw(query: &Vec<u8>) -> (pairs: Vec<(Vec<u8>, Vec<u8>)>)
    ensures
        pairs@.len() == query_pairs_of(query@).len(),
        forall|i: int|
            0 <= i < pairs@.len() ==> ((#[trigger] pairs@[i]).0@, pairs@[i].1@)
                == query_pairs_of(query@)[i],
        query@.len() == 0 ==> pairs@.len() == 0,
{
    url::form_urlencoded::parse(query.as_slice())
        .into_owned()
        .map(|(k, v)| (k.into_bytes(), v.into_bytes()))
        .collect()
}

/// The value of the last pair with the given name: a later duplicate
/// name overwrites an earlier one, as collecting pairs into a keyed
/// table would.
pub open spec fn lookup_param(pairs: Seq<(Seq<u8>, Seq<u8>)>, key: Seq<u8>) -> Option<Seq<u8>>
    decreases pairs.len(),
{
    if pairs.len() == 0 {
        None
    } else if pairs.last().0 == key {
        Some(pairs.last().1)
    } else {
        lookup_param(pairs.drop_last(), key)
    }
}

/// Whether two byte vectors hold the same bytes.
pub fn bytes_eq(a: &Vec<u8>, b: &Vec<u8>) -> (r: bool)
    ensures
        r == (a@ == b@),
{
    if a.len() != b.len() {
        proof {
            assert(a@ != b@);
        }
        return false;
    }
    let mut i: usize = 0;
    while i < a.len()
        invariant
            i <= a.len(),
            a.len() == b.len(),
            forall|j: int| 0 <= j < i ==> a@[j] == b@[j],
        decreases a.len() - i,
    {
        if a[i] != b[i] {
            proof {
                assert(a@ != b@);
            }
            return false;
        }
        i = i + 1;
    }
    proof {
        assert(a@ =~= b@);
    }
    true
}

/// The value of the last query pair named `key`, if any.
pub fn find_param<'a>(pairs: &'a Vec<(Vec<u8>, Vec<u8>)>, key: &Vec<u8>) -> (r: Option<
    &'a Vec<u8>,
>)
    ensures
        match r {
            Some(v) => lookup_param(
                pairs@.map_values(|p: (Vec<u8>, Vec<u8>)| (p.0@, p.1@)), key@) == Some(v@),
            None => lookup_param(pairs@.map_values(|p: (Vec<u8>, Vec<u8>)| (p.0@, p.1@)), key@)
                is None,
        },
{
    let ghost m = pairs@.map_values(|p: (Vec<u8>, Vec<u8>)| (p.0@, p.1@));
    let mut i: usize = pairs.len();
    proof {
        assert(m.take(i as int) =~= m);
    }
    while i > 0
        invariant
            i <= pairs.len(),
            m == pairs@.map_values(|p: (Vec<u8>, Vec<u8>)| (p.0@, p.1@)),
            lookup_param(m.take(i as int), key@) == lookup_param(m, key@),
        decreases i,
    {
        i = i - 1;
        if bytes_eq(&pairs[i].0, key) {
            proof {
                assert(m.take(i + 1).last() == (pairs@[i as int].0@, pairs@[i as int].1@));
            }
            return Some(&pairs[i].1);
        }
        proof {
            assert(m.take(i + 1).last() == (pairs@[i as int].0@, pairs@[i as int].1@));
            assert(m.take(i + 1).drop_last() =~= m.take(i as int));
        }
    }
    proof {
        assert(m.take(0) =~= Seq::<(Seq<u8>, Seq<u8>)>::empty());
    }
    None
}

/// Whether a byte is an ASCII decimal digit.
pub open spec fn is_digit(b: u8) -> bool {
    48 <= b <= 57
}

/// The number that a string of decimal digits denotes.
pub open spec fn digits_value(s: Seq<u8>) -> int
    decreases s.len(),
{
    if s.len() == 0 {
        0
    } else {
        digits_value(s.drop_last()) * 10 + (s.last() - 48)
    }
}

/// A digit string's value never shrinks as digits are appended.
proof fn lemma_digits_value_nonneg(s: Seq<u8>)
    requires
        forall|i: int| 0 <= i < s.len() ==> is_digit(#[trigger] s[i]),
    ensures
        digits_value(s) >= 0,
    decreases s.len(),
{
    if s.len() > 0 {
        lemma_digits_value_nonneg(s.drop_last());
    }
}

/// A prefix of a digit string never denotes more than the whole.
proof fn lemma_digits_value_prefix(s: Seq<u8>, n: int)
    requires
        forall|i: int| 0 <= i < s.len() ==> is_digit(#[trigger] s[i]),
        0 <= n <= s.len(),
    ensures
        digits_value(s.take(n)) <= digits_value(s),
    decreases s.len() - n,
{
    if n < s.len() {
        lemma_digits_value_prefix(s, n + 1);
        lemma_digits_value_nonneg(s.take(n));
        assert(s.take(n + 1).drop_last() =~= s.take(n));
        assert(digits_value(s.take(n)) * 10 >= digits_value(s.take(n))) by (nonlinear_arith)
            requires
                digits_value(s.take(n)) >= 0,
        ;
    } else {
        assert(s.take(n) =~= s);
    }
}

/// The digits of a tile id parameter: one optional leading plus sign,
/// then the decimal digits.
pub open spec fn id_digits(s: Seq<u8>) -> Seq<u8> {
    if s.len() > 0 && s[0] == 43 {
        s.skip(1)
    } else {
        s
    }
}

/// The tile id that a query parameter denotes: at least one decimal
/// digit after an optional leading plus sign, denoting a value that
/// fits the id type; anything else does not name a tile.
pub open spec fn parsed_tile_id(s: Seq<u8>) -> Option<u32> {
    let d = id_digits(s);
    if d.len() > 0 && (forall|i: int| 0 <= i < d.len() ==> is_digit(#[trigger] d[i]))
        && digits_value(d) <= u32::MAX {
        Some(digits_value(d) as u32)
    } else {
        None
    }
}

/// Parses a tile id parameter: an optional leading plus sign, then
/// decimal digits whose value fits the id type.
#[verifier::loop_isolation(false)]
pub fn parse_tile_id(s: &Vec<u8>) -> (r: Option<u32>)
    ensures
        r == parsed_tile_id(s@),
{
    let ghost d = id_digits(s@);
    let start: usize = if s.len() > 0 && s[0] == 43 {
        1
    } else {
        0
    };
    proof {
        assert(d =~= s@.skip(start as int));
    }
    if s.len() == start {
        return None;
    }
    let mut acc: u64 = 0;
    let mut i: usize = start;
    while i < s.len()
        invariant
            start <= i <= s.len(),
            d == s@.skip(start as int),
            s@.len() > start,
            acc == digits_value(d.take(i - start)),
            acc <= u32::MAX,
            forall|j: int| 0 <= j < i - start ==> is_digit(#[trigger] d[j]),
        decreases s.len() - i,
    {
        let b = s[i];
        if b < 48 || b > 57 {
            proof {
                let k = i - start;
                assert(0 <= k < d.len() && !is_digit(d[k]));
                assert(!(forall|j: int| 0 <= j < d.len() ==> is_digit(#[trigger] d[j])));
            }
            return None;
        }
        let digit: u64 = (b - 48) as u64;
        proof {
            let k = (i - start) as int;
            assert(d.take(k + 1).drop_last() =~= d.take(k));
            assert(d.take(k + 1).last() == d[k]);
            assert(d[k] == s@[i as int]);
            assert(digits_value(d.take(k + 1)) == digits_value(d.take(k)) * 10 + (d[k] - 48));
        }
        acc = acc * 10 + digit;
        i = i + 1;
        if acc > (u32::MAX as u64) {
            proof {
                let n = (i - start) as int;
                assert(acc == digits_value(d.take(n)));
                if forall|j: int| 0 <= j < d.len() ==> is_digit(#[trigger] d[j]) {
                    lemma_digits_value_prefix(d, n);
                    assert(digits_value(d) > u32::MAX);
                }
                assert(parsed_tile_id(s@) is None);
            }
            return None;
        }
    }
    proof {
        assert(d.take(s@.len() - start) =~= d);
    }
    Some(acc as u32)
}

/// Where a request is routed: one of the two read paths, or nothing.
#[derive(Clone, Copy, Debug, PartialEq, Eq, Structural)]
pub enum Route {
    Elevation,
    Imagery,
    NotFound,
}

/// The route of a request: `GET /elevation` and `GET /imagery` are the
/// two read paths; everything else is unknown.
pub open spec fn route_of(method: Seq<u8>, path: Seq<u8>) -> Route {
    if method == seq![71u8, 69, 84] {
        if path == seq![47u8, 101, 108, 101, 118, 97, 116, 105, 111, 110] {
            Route::Elevation
        } else if path == seq![47u8, 105, 109, 97, 103, 101, 114, 121] {
            Route::Imagery
        } else {
            Route::NotFound
        }
    } else {
        Route::NotFound
    }
}

/// Routes a request by its method and path.
pub fn route(method: &Vec<u8>, path: &Vec<u8>) -> (r: Route)
    ensures
        r == route_of(method@, path@),
{
    let get: Vec<u8> = vec![71u8, 69, 84];
    let elevation: Vec<u8> = vec![47u8, 101, 108, 101, 118, 97, 116, 105, 111, 110];
    let imagery: Vec<u8> = vec![47u8, 105, 109, 97, 103, 101, 114, 121];
    proof {
        assert(get@ =~= seq![71u8, 69, 84]);
        assert(elevation@ =~= seq![47u8, 101, 108, 101, 118, 97, 116, 105, 111, 110]);
        assert(imagery@ =~= seq![47u8, 105, 109, 97, 103, 101, 114, 121]);
    }
    if !bytes_eq(method, &get) {
        return Route::NotFound;
    }
    if bytes_eq(path, &elevation) {
        Route::Elevation
    } else if bytes_eq(path, &imagery) {
        Route::Imagery
    } else {
        Route::NotFound
    }
}

/// The tile id a query string asks for: the last `id` parameter,
/// parsed as a tile id.
pub open spec fn requested_id(q: Seq<u8>) -> Option<u32> {
    match lookup_param(query_pairs_of(q), seq![105u8, 100u8]) {
        Some(v) => parsed_tile_id(v),
        None => None,
    }
}

/// The elevation read path of the lookup service: parses the query
/// string, finds the requested tile id, and hands back that tile's
/// elevation block; nothing when the query names no valid id or no
/// such tile is stored.
pub fn elev_req(store: &TileStore, query: &Vec<u8>) -> (r: Option<Vec<u8>>)
    ensures
        match requested_id(query@) {
            Some(id) => match r {
                Some(blob) => exists|i: int|
                    0 <= i < store.tiles@.len() && (#[trigger] store.tiles@[i]).id == id
                        && blob@ == store.tiles@[i].elevation_data@,
                None => !store.contains_id(id),
            },
            None => r is None,
        },
{
    let pairs = parse_query_raw(query);
    proof {
        assert(pairs@.map_values(|p: (Vec<u8>, Vec<u8>)| (p.0@, p.1@)) =~= query_pairs_of(
            query@));
    }
    let key: Vec<u8> = vec![105u8, 100u8];
    proof {
        assert(key@ =~= seq![105u8, 100u8]);
    }
    match find_param(&pairs, &key) {
        Some(v) => match parse_tile_id(v) {
            Some(id) => match store.get_elevation_by_id(id) {
                Some(t) => Some(t.elevation_data),
                None => None,
            },
            None => None,
        },
        None => None,
    }
}

/// The imagery read path of the lookup service, symmetric to the
/// elevation one.
pub fn imagery_req(store: &TileStore, query: &Vec<u8>) -> (r: Option<Vec<u8>>)
    ensures
        match requested_id(query@) {
            Some(id) => match r {
                Some(blob) => exists|i: int|
                    0 <= i < store.tiles@.len() && (#[trigger] store.tiles@[i]).id == id
                        && blob@ == store.tiles@[i].imagery_data@,
                None => !store.contains_id(id),
            },
            None => r is None,
        },
{
    let pairs = parse_query_raw(query);
    proof {
        assert(pairs@.map_values(|p: (Vec<u8>, Vec<u8>)| (p.0@, p.1@)) =~= query_pairs_of(
            query@));
    }
    let key: Vec<u8> = vec![105u8, 100u8];
    proof {
        assert(key@ =~= seq![105u8, 100u8]);
    }
    match find_param(&pairs, &key) {
        Some(v) => match parse_tile_id(v) {
            Some(id) => match store.get_imagery_by_id(id) {
                Some(t) => Some(t.imagery_data),
                None => None,
            },
            None => None,
        },
        None => None,
    }
}

} // verus!
