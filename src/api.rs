//! Remote-API markers in the log (`[API] [<id>] Sending Get request to
//! <url>`) and the lookups that their URLs call for.
use vstd::prelude::*;
use vstd::string::StringSliceAdditionalSpecFns;
use crate::bytes::{occurs_at, first_at, first_byte, contains_seq, find_from, find_byte, matches_at, copy_range};
use crate::scan::{Class, run, run_len};

verus! {

pub open spec fn kw_api() -> Seq<u8> { "[API] [".spec_bytes() }
pub open spec fn kw_send() -> Seq<u8> { "Sending Get request to ".spec_bytes() }
pub open spec fn kw_analysis_url() -> Seq<u8> { "https://api.vrchat.cloud/api/1/analysis".spec_bytes() }
pub open spec fn kw_avatars_url() -> Seq<u8> { "https://api.vrchat.cloud/api/1/avatars".spec_bytes() }
pub open spec fn kw_prints_dir() -> Seq<u8> { "/prints/".spec_bytes() }
pub open spec fn kw_inventory_dir() -> Seq<u8> { "/inventory/".spec_bytes() }
pub open spec fn kw_analysis() -> Seq<u8> { "/analysis/file_".spec_bytes() }
pub open spec fn kw_security() -> Seq<u8> { "/security".spec_bytes() }
pub open spec fn kw_print() -> Seq<u8> { "prints/prnt_".spec_bytes() }
pub open spec fn kw_user() -> Seq<u8> { "user/usr_".spec_bytes() }
pub open spec fn kw_inv() -> Seq<u8> { "/inventory/inv_".spec_bytes() }

/// The value of a run of decimal digits.
pub open spec fn decimal(s: Seq<u8>) -> int
    decreases s.len(),
{
    if s.len() == 0 {
        0
    } else {
        decimal(s.drop_last()) * 10 + (s.last() - 48)
    }
}

/// A non-empty run of digits whose value is at most `max`.
pub open spec fn number_of(s: Seq<u8>, max: int) -> Option<int> {
    if s.len() > 0 && run(s, 0, Class::Digit) == s.len() && decimal(s) <= max {
        Some(decimal(s))
    } else {
        None
    }
}

proof fn lemma_decimal_grows(s: Seq<u8>, i: int)
    requires
        0 <= i <= s.len(),
        forall|j: int| 0 <= j < s.len() ==> 48 <= #[trigger] s[j] <= 57,
    ensures
        decimal(s.subrange(0, i)) <= decimal(s),
        0 <= decimal(s.subrange(0, i)),
    decreases s.len() - i,
{
    if i < s.len() {
        lemma_decimal_grows(s, i + 1);
        assert(s.subrange(0, i + 1).drop_last() =~= s.subrange(0, i));
        lemma_decimal_nonneg(s.subrange(0, i));
    } else {
        assert(s.subrange(0, i) =~= s);
        lemma_decimal_nonneg(s);
    }
}

proof fn lemma_decimal_nonneg(s: Seq<u8>)
    requires
        forall|j: int| 0 <= j < s.len() ==> 48 <= #[trigger] s[j] <= 57,
    ensures
        0 <= decimal(s),
    decreases s.len(),
{
    if s.len() > 0 {
        lemma_decimal_nonneg(s.drop_last());
    }
}

proof fn lemma_all_digits(s: Seq<u8>, i: int)
    requires
        0 <= i <= s.len(),
    ensures
        run(s, i, Class::Digit) == s.len() - i <==> (forall|j: int| i <= j < s.len() ==> 48 <= #[trigger] s[j] <= 57),
    decreases s.len() - i,
{
    if i < s.len() {
        lemma_all_digits(s, i + 1);
        crate::scan::lemma_run_bound(s, i + 1, Class::Digit);
    }
}

/// The number written in `s[a..b]`, where it is all digits, not empty and at
/// most `max`.
pub fn read_number(s: &[u8], a: usize, b: usize, max: u32) -> (r: Option<u32>)
    requires
        a <= b <= s@.len(),
    ensures
        match r {
            Some(v) => number_of(s@.subrange(a as int, b as int), max as int) == Some(v as int),
            None => number_of(s@.subrange(a as int, b as int), max as int) is None,
        },
{
    let ghost t = s@.subrange(a as int, b as int);
    proof {
        lemma_all_digits(t, 0);
    }
    if a == b {
        return None;
    }
    let mut v: u32 = 0;
    let mut i = a;
    while i < b
        invariant
            a <= i <= b <= s@.len(),
            t == s@.subrange(a as int, b as int),
            v as int == decimal(t.subrange(0, i - a)),
            v <= max,
            forall|j: int| 0 <= j < i - a ==> 48 <= #[trigger] t[j] <= 57,
        decreases b - i,
    {
        let c = s[i];
        if c < 48 || c > 57 {
            proof {
                assert(t[i - a] == c);
                lemma_all_digits(t, 0);
            }
            return None;
        }
        let d = (c - 48) as u32;
        proof {
            assert(t.subrange(0, i + 1 - a).drop_last() =~= t.subrange(0, i - a));
            assert(t[i - a] == c);
        }
        proof {
            assert(decimal(t.subrange(0, i + 1 - a)) == v * 10 + d);
            assert forall|j: int| 0 <= j < i + 1 - a implies 48 <= #[trigger] t.subrange(0, i + 1 - a)[j] <= 57 by {
                assert(t.subrange(0, i + 1 - a)[j] == t[j]);
            }
        }
        if d > max || v > (max - d) / 10 {
            proof {
                assert(decimal(t.subrange(0, i + 1 - a)) > max) by (nonlinear_arith)
                    requires
                        decimal(t.subrange(0, i + 1 - a)) == v * 10 + d,
                        d > max || v > (max - d) / 10,
                        v >= 0,
                        d <= 9,
                {
                }
                lemma_all_digits(t, 0);
                if forall|j: int| 0 <= j < t.len() ==> 48 <= #[trigger] t[j] <= 57 {
                    lemma_decimal_grows(t, i + 1 - a);
                }
            }
            return None;
        }
        assert(v * 10 + d <= max) by (nonlinear_arith)
            requires
                v <= (max - d) / 10,
                d <= max,
        {
        }
        v = v * 10 + d;
        i = i + 1;
    }
    assert(t.subrange(0, (b - a) as int) =~= t);
    proof {
        lemma_all_digits(t, 0);
    }
    Some(v)
}

/// The URL asks for something that the enrichment queue looks up.
pub open spec fn is_lookup_url(url: Seq<u8>) -> bool {
    occurs_at(url, kw_analysis_url(), 0) || occurs_at(url, kw_avatars_url(), 0) || contains_seq(
        url,
        kw_prints_dir(),
    ) || contains_seq(url, kw_inventory_dir())
}

/// An API marker whose URL is a lookup: its call id (where the bracket
/// holds a `u32`) and its URL.
pub open spec fn api_of(s: Seq<u8>) -> Option<(Option<int>, Seq<u8>)> {
    match first_at(s, kw_api(), 0) {
        Some(k) => {
            let a = k + kw_api().len();
            match first_byte(s, 93u8, a) {
                Some(c) => {
                    let j = c + 1 + run(s, c + 1, Class::Space);
                    let url = s.subrange(j + kw_send().len(), s.len() as int);
                    if occurs_at(s, kw_send(), j) && is_lookup_url(url) {
                        Some((number_of(s.subrange(a, c), 0xffff_ffff), url))
                    } else {
                        None
                    }
                },
                None => None,
            }
        },
        None => None,
    }
}

/// An API marker of the log.
pub struct ApiMarker {
    pub call_id: Option<u32>,
    pub url: Vec<u8>,
}

pub open spec fn opt_int(o: Option<u32>) -> Option<int> {
    match o {
        Some(v) => Some(v as int),
        None => None,
    }
}

fn lookup_url(url: &[u8]) -> (r: bool)
    ensures
        r == is_lookup_url(url@),
{
    matches_at(url, "https://api.vrchat.cloud/api/1/analysis".as_bytes(), 0) || matches_at(
        url,
        "https://api.vrchat.cloud/api/1/avatars".as_bytes(),
        0,
    ) || find_from(url, "/prints/".as_bytes(), 0).is_some() || find_from(
        url,
        "/inventory/".as_bytes(),
        0,
    ).is_some()
}

/// The call id and URL of an API marker line that asks for a lookup.
pub fn parse_api_marker(line: &[u8]) -> (r: Option<ApiMarker>)
    ensures
        match r {
            Some(m) => api_of(line@) == Some((opt_int(m.call_id), m.url@)),
            None => api_of(line@) is None,
        },
{
    let len = line.len();
    let kw = "[API] [".as_bytes();
    let ks = "Sending Get request to ".as_bytes();
    let k = match find_from(line, kw, 0) {
        Some(k) => k,
        None => return None,
    };
    let a = k + kw.len();
    let c = match find_byte(line, 93u8, a) {
        Some(c) => c,
        None => return None,
    };
    let j = c + 1 + run_len(line, c + 1, Class::Space);
    if !matches_at(line, ks, j) {
        return None;
    }
    let url = copy_range(line, j + ks.len(), len);
    if !lookup_url(url.as_slice()) {
        return None;
    }
    let call_id = read_number(line, a, c, 0xffff_ffffu32);
    Some(ApiMarker { call_id, url })
}

/// A lookup that an API marker's URL calls for.
pub enum Lookup {
    /// The security analysis of an avatar file, at a version.
    Security { file_id: Vec<u8>, version: u32 },
    /// A print, by its id.
    Print { id: Vec<u8> },
    /// An inventory item, as `<owner>&<item>`.
    Inventory { id: Vec<u8> },
}

/// What a `Lookup` holds, as values.
pub enum LookupView {
    Security { file_id: Seq<u8>, version: int },
    Print { id: Seq<u8> },
    Inventory { id: Seq<u8> },
}

impl Lookup {
    pub open spec fn view(&self) -> LookupView {
        match self {
            Lookup::Security { file_id, version } => LookupView::Security {
                file_id: file_id@,
                version: *version as int,
            },
            Lookup::Print { id } => LookupView::Print { id: id@ },
            Lookup::Inventory { id } => LookupView::Inventory { id: id@ },
        }
    }
}

/// `/analysis/file_<ident>/<version>/security`, the version positive and
/// within `i32`.
pub open spec fn analysis_of(url: Seq<u8>) -> Option<LookupView> {
    match first_at(url, kw_analysis(), 0) {
        Some(k) => {
            let f = k + 10;
            let n = run(url, f + 5, Class::Ident);
            let fe = f + 5 + n;
            let d = run(url, fe + 1, Class::Digit);
            if n > 0 && fe < url.len() && url[fe] == 47u8 && d > 0 && occurs_at(
                url,
                kw_security(),
                fe + 1 + d,
            ) {
                match number_of(url.subrange(fe + 1, fe + 1 + d), 0x7fff_ffff) {
                    Some(v) => if v > 0 {
                        Some(LookupView::Security { file_id: url.subrange(f, fe), version: v })
                    } else {
                        None
                    },
                    None => None,
                }
            } else {
                None
            }
        },
        None => None,
    }
}

/// `prints/prnt_<ident>`.
pub open spec fn print_of(url: Seq<u8>) -> Option<LookupView> {
    match first_at(url, kw_print(), 0) {
        Some(k) => {
            let n = run(url, k + 12, Class::Ident);
            if n > 0 {
                Some(LookupView::Print { id: url.subrange(k + 7, k + 12 + n) })
            } else {
                None
            }
        },
        None => None,
    }
}

/// `user/usr_<ident>/inventory/inv_<ident>`, as `usr_…&inv_…`.
pub open spec fn inventory_of(url: Seq<u8>) -> Option<LookupView> {
    match first_at(url, kw_user(), 0) {
        Some(u) => {
            let n = run(url, u + 9, Class::Ident);
            let ue = u + 9 + n;
            let m = run(url, ue + 15, Class::Ident);
            if n > 0 && occurs_at(url, kw_inv(), ue) && m > 0 {
                Some(
                    LookupView::Inventory {
                        id: url.subrange(u + 5, ue) + seq![38u8] + url.subrange(ue + 11, ue + 15 + m),
                    },
                )
            } else {
                None
            }
        },
        None => None,
    }
}

pub open spec fn opt_seq(o: Option<LookupView>) -> Seq<LookupView> {
    match o {
        Some(v) => seq![v],
        None => Seq::empty(),
    }
}

/// Every lookup that `url` calls for: a security analysis, a print, an
/// inventory item, in that order.
pub open spec fn lookups_of(url: Seq<u8>) -> Seq<LookupView> {
    opt_seq(analysis_of(url)) + opt_seq(print_of(url)) + opt_seq(inventory_of(url))
}

pub open spec fn lookup_views(v: Seq<Lookup>) -> Seq<LookupView> {
    v.map_values(|l: Lookup| l.view())
}

fn analysis_read(url: &[u8]) -> (r: Option<Lookup>)
    ensures
        match r {
            Some(l) => analysis_of(url@) == Some(l.view()),
            None => analysis_of(url@) is None,
        },
{
    let len = url.len();
    let kw = "/analysis/file_".as_bytes();
    proof {
        reveal_strlit("/analysis/file_");
        vstd::string::is_ascii_spec_bytes("/analysis/file_");
    }
    assert(kw@.len() == 15);
    let k = match find_from(url, kw, 0) {
        Some(k) => k,
        None => return None,
    };
    let f = k + 10;
    let n = run_len(url, f + 5, Class::Ident);
    let fe = f + 5 + n;
    if n == 0 || fe >= len || url[fe] != 47u8 {
        return None;
    }
    let d = run_len(url, fe + 1, Class::Digit);
    if d == 0 || !matches_at(url, "/security".as_bytes(), fe + 1 + d) {
        return None;
    }
    match read_number(url, fe + 1, fe + 1 + d, 0x7fff_ffffu32) {
        Some(v) => {
            if v > 0 {
                Some(Lookup::Security { file_id: copy_range(url, f, fe), version: v })
            } else {
                None
            }
        },
        None => None,
    }
}

fn print_read(url: &[u8]) -> (r: Option<Lookup>)
    ensures
        match r {
            Some(l) => print_of(url@) == Some(l.view()),
            None => print_of(url@) is None,
        },
{
    let _len = url.len();
    let kw = "prints/prnt_".as_bytes();
    proof {
        reveal_strlit("prints/prnt_");
        vstd::string::is_ascii_spec_bytes("prints/prnt_");
    }
    assert(kw@.len() == 12);
    let k = match find_from(url, kw, 0) {
        Some(k) => k,
        None => return None,
    };
    let n = run_len(url, k + 12, Class::Ident);
    if n == 0 {
        return None;
    }
    Some(Lookup::Print { id: copy_range(url, k + 7, k + 12 + n) })
}

fn inventory_read(url: &[u8]) -> (r: Option<Lookup>)
    ensures
        match r {
            Some(l) => inventory_of(url@) == Some(l.view()),
            None => inventory_of(url@) is None,
        },
{
    let len = url.len();
    let ku = "user/usr_".as_bytes();
    let ki = "/inventory/inv_".as_bytes();
    proof {
        reveal_strlit("user/usr_");
        vstd::string::is_ascii_spec_bytes("user/usr_");
        reveal_strlit("/inventory/inv_");
        vstd::string::is_ascii_spec_bytes("/inventory/inv_");
    }
    assert(ku@.len() == 9);
    assert(ki@.len() == 15);
    let u = match find_from(url, ku, 0) {
        Some(u) => u,
        None => return None,
    };
    let n = run_len(url, u + 9, Class::Ident);
    let ue = u + 9 + n;
    if n == 0 || !matches_at(url, ki, ue) {
        return None;
    }
    let m = run_len(url, ue + 15, Class::Ident);
    if m == 0 {
        return None;
    }
    let mut id = copy_range(url, u + 5, ue);
    id.push(38u8);
    let inv = copy_range(url, ue + 11, ue + 15 + m);
    let ghost head = id@;
    let mut i: usize = 0;
    while i < inv.len()
        invariant
            i <= inv@.len(),
            id@ == head + inv@.subrange(0, i as int),
        decreases inv.len() - i,
    {
        id.push(inv[i]);
        i = i + 1;
        assert(id@ =~= head + inv@.subrange(0, i as int));
    }
    assert(inv@.subrange(0, inv@.len() as int) =~= inv@);
    assert(id@ =~= url@.subrange(u + 5, ue as int) + seq![38u8] + url@.subrange(ue + 11, ue + 15 + m));
    Some(Lookup::Inventory { id })
}

/// The lookups that an API marker's URL calls for.
pub fn lookups_for(url: &[u8]) -> (r: Vec<Lookup>)
    ensures
        lookup_views(r@) == lookups_of(url@),
{
    let mut r: Vec<Lookup> = Vec::new();
    let a = analysis_read(url);
    let p = print_read(url);
    let v = inventory_read(url);
    match a {
        Some(l) => r.push(l),
        None => {},
    }
    assert(lookup_views(r@) =~= opt_seq(analysis_of(url@)));
    let ghost r1 = r@;
    match p {
        Some(l) => r.push(l),
        None => {},
    }
    assert(lookup_views(r@) =~= lookup_views(r1) + opt_seq(print_of(url@)));
    let ghost r2 = r@;
    match v {
        Some(l) => r.push(l),
        None => {},
    }
    assert(lookup_views(r@) =~= lookup_views(r2) + opt_seq(inventory_of(url@)));
    r
}

} // verus!
