//! Scope requirements of API endpoints: the parts of a specification document
//! that carry them, the table built from those documents, and the lookup of a
//! request in that table.
use crate::pattern::{accepts, endpoint_pattern, find_regex_for_endpoint, pattern_accepts};
use vstd::prelude::*;

verus! {

/// An HTTP method that an endpoint declares scopes for.
#[derive(PartialEq, Eq, Structural, Hash, Debug, Clone, Copy)]
pub enum RequestType {
    Get,
    Patch,
    Post,
    Put,
    Delete,
}

/// The family a permission scope belongs to.
#[derive(PartialEq, Eq, Structural, Debug, Clone, Copy)]
pub enum PermissionType {
    Classic,
    Granular,
}

/// One scope-bearing entry of an operation.
#[derive(Debug, Clone, PartialEq, Eq)]
pub struct PermissionData {
    pub scopes: Vec<String>,
}

/// What a specification document says of one operation (one method of one
/// endpoint): its scope-bearing entries.
#[derive(Debug, Clone, PartialEq, Eq)]
pub struct RequestDetails {
    pub permission: Vec<PermissionData>,
}

/// The operations of one URL template, by method; an absent method declares
/// nothing.
#[derive(Debug, Clone, PartialEq, Eq)]
pub struct Endpoint {
    pub get: Option<RequestDetails>,
    pub put: Option<RequestDetails>,
    pub patch: Option<RequestDetails>,
    pub post: Option<RequestDetails>,
    pub delete: Option<RequestDetails>,
}

/// A decoded specification document: each URL template with its operations.
#[derive(Debug, Clone, PartialEq, Eq)]
pub struct SwaggerResponse {
    pub paths: Vec<(String, Endpoint)>,
}

/// The characters of each string.
pub open spec fn strs(v: Seq<String>) -> Seq<Seq<char>> {
    v.map_values(|s: String| s@)
}

/// The scopes of a list of entries, in order.
pub open spec fn flat_scopes(ps: Seq<PermissionData>) -> Seq<Seq<char>>
    decreases ps.len(),
{
    if ps.len() == 0 {
        Seq::empty()
    } else {
        flat_scopes(ps.drop_last()) + strs(ps.last().scopes@)
    }
}

/// The method and scopes of one operation, if it is present.
pub open spec fn method_part(d: Option<RequestDetails>, m: RequestType) -> Seq<
    (RequestType, Set<Seq<char>>),
> {
    match d {
        Some(d) => seq![(m, flat_scopes(d.permission@).to_set())],
        None => Seq::empty(),
    }
}

/// The operations that an endpoint declares, in the order delete, patch,
/// post, put, get.
pub open spec fn declared_methods(e: Endpoint) -> Seq<(RequestType, Set<Seq<char>>)> {
    method_part(e.delete, RequestType::Delete) + method_part(e.patch, RequestType::Patch)
        + method_part(e.post, RequestType::Post) + method_part(e.put, RequestType::Put)
        + method_part(e.get, RequestType::Get)
}

/// The method and scopes of an extracted operation.
pub open spec fn op_view(t: (String, RequestType, Vec<String>)) -> (RequestType, Set<Seq<char>>) {
    (t.1, strs(t.2@).to_set())
}

proof fn lemma_concat_to_set(a: Seq<Seq<char>>, b: Seq<Seq<char>>)
    ensures
        (a + b).to_set() == a.to_set().union(b.to_set()),
{
    assert forall|sc: Seq<char>| #[trigger] (a + b).contains(sc) == (a.contains(sc) || b.contains(sc)) by {
        if (a + b).contains(sc) {
            let y = choose|y: int| 0 <= y < (a + b).len() && (a + b)[y] == sc;
            if y < a.len() {
                assert(a[y] == sc);
            } else {
                assert(b[y - a.len()] == sc);
            }
        }
        if a.contains(sc) {
            let y = choose|y: int| 0 <= y < a.len() && a[y] == sc;
            assert((a + b)[y] == sc);
        }
        if b.contains(sc) {
            let y = choose|y: int| 0 <= y < b.len() && b[y] == sc;
            assert((a + b)[y + a.len()] == sc);
        }
    }
    assert((a + b).to_set() =~= a.to_set().union(b.to_set()));
}

/// Appends a copy of each string of `src` to `out`.
fn append_strings(out: &mut Vec<String>, src: &Vec<String>)
    ensures
        strs(final(out)@) == strs(old(out)@) + strs(src@),
{
    let mut i: usize = 0;
    while i < src.len()
        invariant
            i <= src@.len(),
            strs(out@) == strs(old(out)@) + strs(src@.take(i as int)),
        decreases src@.len() - i,
    {
        let s = src[i].clone();
        let ghost prev = out@;
        out.push(s);
        proof {
            assert(s@ == src@[i as int]@);
            assert(strs(out@) =~= strs(prev).push(src@[i as int]@));
            assert(src@.take(i + 1) =~= src@.take(i as int).push(src@[i as int]));
            assert(strs(out@) =~= strs(old(out)@) + strs(src@.take(i + 1)));
        }
        i = i + 1;
    }
    proof {
        assert(src@.take(src@.len() as int) =~= src@);
    }
}

fn contains_string(v: &Vec<String>, s: &String) -> (r: bool)
    ensures
        r == strs(v@).contains(s@),
{
    let mut i: usize = 0;
    while i < v.len()
        invariant
            i <= v@.len(),
            forall|x: int| 0 <= x < i ==> (#[trigger] v@[x])@ != s@,
        decreases v@.len() - i,
    {
        if v[i] == *s {
            assert(strs(v@)[i as int] == s@);
            return true;
        }
        i = i + 1;
    }
    assert forall|x: int| 0 <= x < strs(v@).len() implies strs(v@)[x] != s@ by {
        assert(strs(v@)[x] == v@[x]@);
    }
    false
}

/// Appends to `out` each string of `src` that it does not hold yet.
fn append_unique(out: &mut Vec<String>, src: &Vec<String>)
    requires
        strs(old(out)@).no_duplicates(),
    ensures
        strs(final(out)@).no_duplicates(),
        strs(final(out)@).to_set() == strs(old(out)@).to_set().union(strs(src@).to_set()),
{
    let mut i: usize = 0;
    while i < src.len()
        invariant
            i <= src@.len(),
            strs(out@).no_duplicates(),
            strs(out@).to_set() == strs(old(out)@).to_set().union(strs(src@.take(i as int)).to_set()),
        decreases src@.len() - i,
    {
        let ghost prev = out@;
        if !contains_string(out, &src[i]) {
            let s = src[i].clone();
            out.push(s);
            proof {
                assert(strs(out@) =~= strs(prev).push(src@[i as int]@));
                assert forall|a: int, b: int|
                    0 <= a < strs(out@).len() && 0 <= b < strs(out@).len() && a != b implies strs(
                    out@)[a] != strs(out@)[b] by {
                    if a == prev.len() {
                        assert(strs(prev)[b] == strs(out@)[b]);
                    } else if b == prev.len() {
                        assert(strs(prev)[a] == strs(out@)[a]);
                    }
                }
            }
        }
        proof {
            let t = strs(src@.take(i + 1));
            assert(t =~= strs(src@.take(i as int)).push(src@[i as int]@));
            assert forall|sc: Seq<char>| #[trigger] strs(out@).contains(sc) == (strs(prev).contains(sc) || sc == src@[i as int]@) by {
                if strs(out@).contains(sc) && !strs(prev).contains(sc) {
                    let y = choose|y: int| 0 <= y < strs(out@).len() && strs(out@)[y] == sc;
                    if y < prev.len() {
                        assert(strs(prev)[y] == sc);
                    }
                }
                if strs(prev).contains(sc) {
                    let y = choose|y: int| 0 <= y < strs(prev).len() && strs(prev)[y] == sc;
                    assert(strs(out@)[y] == sc);
                }
                if sc == src@[i as int]@ && !strs(prev).contains(sc) {
                    assert(strs(out@)[prev.len() as int] == sc);
                }
            }
            assert forall|sc: Seq<char>| #[trigger] t.contains(sc) == (strs(src@.take(i as int)).contains(sc) || sc == src@[i as int]@) by {
                let u = strs(src@.take(i as int));
                if t.contains(sc) && sc != src@[i as int]@ {
                    let y = choose|y: int| 0 <= y < t.len() && t[y] == sc;
                    assert(u[y] == sc);
                }
                if u.contains(sc) {
                    let y = choose|y: int| 0 <= y < u.len() && u[y] == sc;
                    assert(t[y] == sc);
                }
                if sc == src@[i as int]@ {
                    assert(t[i as int] == sc);
                }
            }
            assert(strs(prev).to_set() == strs(old(out)@).to_set().union(strs(src@.take(i as int)).to_set()));
            assert forall|sc: Seq<char>| #[trigger] strs(out@).to_set().contains(sc) == strs(old(out)@).to_set().union(t.to_set()).contains(sc) by {
                assert(strs(prev).to_set().contains(sc) == strs(prev).contains(sc));
                assert(strs(src@.take(i as int)).to_set().contains(sc) == strs(src@.take(i as int)).contains(sc));
            }
            assert(strs(out@).to_set() =~= strs(old(out)@).to_set().union(t.to_set()));
        }
        i = i + 1;
    }
    proof {
        assert(src@.take(src@.len() as int) =~= src@);
    }
}

/// The scopes of an operation: the union of those of all its entries, each
/// once.
pub fn get_scopes(endpoint_data: &RequestDetails) -> (r: Vec<String>)
    ensures
        strs(r@).no_duplicates(),
        strs(r@).to_set() == flat_scopes(endpoint_data.permission@).to_set(),
{
    let ps = &endpoint_data.permission;
    let mut out: Vec<String> = Vec::new();
    let mut k: usize = 0;
    proof {
        assert(ps@.take(0) =~= Seq::<PermissionData>::empty());
        assert(strs(out@) =~= Seq::<Seq<char>>::empty());
        assert(flat_scopes(ps@.take(0)).to_set() =~= strs(out@).to_set());
    }
    while k < ps.len()
        invariant
            k <= ps@.len(),
            strs(out@).no_duplicates(),
            strs(out@).to_set() == flat_scopes(ps@.take(k as int)).to_set(),
        decreases ps@.len() - k,
    {
        append_unique(&mut out, &ps[k].scopes);
        proof {
            assert(ps@.take(k + 1).drop_last() =~= ps@.take(k as int));
            lemma_concat_to_set(flat_scopes(ps@.take(k as int)), strs(ps@[k as int].scopes@));
        }
        k = k + 1;
    }
    proof {
        assert(ps@.take(ps@.len() as int) =~= ps@);
    }
    out
}

fn push_method(
    out: &mut Vec<(String, RequestType, Vec<String>)>,
    d: &Option<RequestDetails>,
    m: RequestType,
    key: &str,
)
    ensures
        final(out)@.map_values(|t: (String, RequestType, Vec<String>)| op_view(t)) == old(
            out,
        )@.map_values(|t: (String, RequestType, Vec<String>)| op_view(t)) + method_part(*d, m),
        forall|i: int| 0 <= i < old(out)@.len() ==> final(out)@[i] == old(out)@[i],
        forall|i: int| old(out)@.len() <= i < final(out)@.len() ==> final(out)@[i].0@ == key@,
        forall|i: int| old(out)@.len() <= i < final(out)@.len() ==> strs(final(out)@[i].2@).no_duplicates(),
{
    if let Some(details) = d {
        out.push((String::from_str(key), m, get_scopes(details)));
    }
    assert(final(out)@.map_values(|t: (String, RequestType, Vec<String>)| op_view(t)) =~= old(
        out,
    )@.map_values(|t: (String, RequestType, Vec<String>)| op_view(t)) + method_part(*d, m));
}

/// The operations that an endpoint declares, each with the template `key`,
/// in the order delete, patch, post, put, get.
pub fn get_request_type(endpoint_data: &Endpoint, key: &str) -> (r: Vec<
    (String, RequestType, Vec<String>),
>)
    ensures
        r@.map_values(|t: (String, RequestType, Vec<String>)| op_view(t)) == declared_methods(
            *endpoint_data,
        ),
        forall|i: int| 0 <= i < r@.len() ==> r@[i].0@ == key@,
        forall|i: int| 0 <= i < r@.len() ==> strs(r@[i].2@).no_duplicates(),
{
    let mut all_methods: Vec<(String, RequestType, Vec<String>)> = Vec::new();
    proof {
        assert(all_methods@.map_values(|t: (String, RequestType, Vec<String>)| op_view(t))
            =~= Seq::<(RequestType, Set<Seq<char>>)>::empty());
    }
    push_method(&mut all_methods, &endpoint_data.delete, RequestType::Delete, key);
    push_method(&mut all_methods, &endpoint_data.patch, RequestType::Patch, key);
    push_method(&mut all_methods, &endpoint_data.post, RequestType::Post, key);
    push_method(&mut all_methods, &endpoint_data.put, RequestType::Put, key);
    push_method(&mut all_methods, &endpoint_data.get, RequestType::Get, key);
    proof {
        assert(Seq::<(RequestType, Set<Seq<char>>)>::empty() + method_part(endpoint_data.delete, RequestType::Delete)
            =~= method_part(endpoint_data.delete, RequestType::Delete));
    }
    all_methods
}

/// A key of the permission table: a URL template and a method.
pub type TableKey = (Seq<char>, RequestType);

/// The scopes that a table gives to an endpoint and method: an entry of the
/// table holds the template, its pattern, the method and the scopes.
#[derive(Debug, Clone, PartialEq, Eq)]
pub struct EndpointPermission {
    pub template: String,
    pub pattern: String,
    pub method: RequestType,
    pub scopes: Vec<String>,
}

/// Scopes required by endpoints, keyed by URL template and method.
#[derive(Debug, Clone, PartialEq, Eq)]
pub struct PermissionTable {
    pub entries: Vec<EndpointPermission>,
}

pub open spec fn entry_has_key(e: EndpointPermission, k: TableKey) -> bool {
    e.template@ == k.0 && e.method == k.1
}

pub open spec fn table_has(t: Seq<EndpointPermission>, k: TableKey) -> bool {
    exists|i: int| 0 <= i < t.len() && entry_has_key(#[trigger] t[i], k)
}

pub open spec fn table_scopes(t: Seq<EndpointPermission>, k: TableKey) -> Set<Seq<char>> {
    Set::new(
        |s: Seq<char>|
            exists|i: int|
                0 <= i < t.len() && entry_has_key(#[trigger] t[i], k) && strs(t[i].scopes@).contains(
                    s,
                ),
    )
}

/// What a list of entries says: each key that an entry holds, with the
/// scopes of all entries that hold it.
pub open spec fn entries_view(t: Seq<EndpointPermission>) -> Map<TableKey, Set<Seq<char>>> {
    Map::new(|k: TableKey| table_has(t, k), |k: TableKey| table_scopes(t, k))
}

/// The scopes that `m` gives to `k`, and none where `k` is absent.
pub open spec fn scopes_or_empty(m: Map<TableKey, Set<Seq<char>>>, k: TableKey) -> Set<
    Seq<char>,
> {
    if m.contains_key(k) {
        m[k]
    } else {
        Set::empty()
    }
}

/// `m` with the scopes `s` added to the key `k`.
pub open spec fn add_scopes(m: Map<TableKey, Set<Seq<char>>>, k: TableKey, s: Set<Seq<char>>) -> Map<
    TableKey,
    Set<Seq<char>>,
> {
    m.insert(k, scopes_or_empty(m, k).union(s))
}

/// The union of two tables: every key of either, with the union of the
/// scopes each gives it.
pub open spec fn union_tables(a: Map<TableKey, Set<Seq<char>>>, b: Map<TableKey, Set<Seq<char>>>) -> Map<
    TableKey,
    Set<Seq<char>>,
> {
    Map::new(
        |k: TableKey| a.contains_key(k) || b.contains_key(k),
        |k: TableKey| scopes_or_empty(a, k).union(scopes_or_empty(b, k)),
    )
}

impl View for PermissionTable {
    type V = Map<TableKey, Set<Seq<char>>>;

    open spec fn view(&self) -> Map<TableKey, Set<Seq<char>>> {
        entries_view(self.entries@)
    }
}

/// Whether entry `i` of `t` is for method `m` and its pattern accepts `url`.
pub open spec fn is_candidate(t: Seq<EndpointPermission>, m: RequestType, url: Seq<char>, i: int) -> bool {
    0 <= i < t.len() && t[i].method == m && accepts(t[i].pattern@, url)
}

/// Whether entry `i` is a candidate whose pattern is at least as long as the
/// pattern of every other candidate.
pub open spec fn is_best(t: Seq<EndpointPermission>, m: RequestType, url: Seq<char>, i: int) -> bool {
    is_candidate(t, m, url, i) && forall|j: int|
        is_candidate(t, m, url, j) ==> t[j].pattern@.len() <= #[trigger] t[i].pattern@.len()
}

impl PermissionTable {
    /// Each entry holds the pattern of its template and each of its scopes
    /// once, and no two entries share a template and a method.
    pub open spec fn wf(&self) -> bool {
        &&& forall|i: int|
            0 <= i < self.entries@.len() ==> strs((#[trigger] self.entries@[i]).scopes@).no_duplicates()
        &&& forall|i: int|
            0 <= i < self.entries@.len() ==> (#[trigger] self.entries@[i]).pattern@
                == endpoint_pattern(self.entries@[i].template@)
        &&& forall|i: int, j: int|
            0 <= i < j < self.entries@.len() ==> !entry_has_key(
                #[trigger] self.entries@[i],
                (#[trigger] self.entries@[j].template@, self.entries@[j].method),
            )
    }

    /// The empty table.
    pub fn new() -> (r: PermissionTable)
        ensures
            r.wf(),
            r@ == Map::<TableKey, Set<Seq<char>>>::empty(),
    {
        let r = PermissionTable { entries: Vec::new() };
        assert(r@ =~= Map::<TableKey, Set<Seq<char>>>::empty());
        r
    }

    fn find_entry(&self, template: &String, method: RequestType) -> (r: Option<usize>)
        ensures
            match r {
                Some(i) => i < self.entries@.len() && entry_has_key(
                    self.entries@[i as int],
                    (template@, method),
                ),
                None => !table_has(self.entries@, (template@, method)),
            },
    {
        let mut i: usize = 0;
        while i < self.entries.len()
            invariant
                i <= self.entries@.len(),
                forall|x: int| 0 <= x < i ==> !entry_has_key(#[trigger] self.entries@[x], (template@, method)),
            decreases self.entries@.len() - i,
        {
            let e = &self.entries[i];
            if e.method == method && e.template == *template {
                return Some(i);
            }
            i = i + 1;
        }
        None
    }

    /// Adds `scopes` to the scopes of `template` and `method`, adding the key
    /// where it is absent. Scopes already there are kept.
    pub fn insert(&mut self, template: &String, method: RequestType, scopes: &Vec<String>)
        requires
            old(self).wf(),
        ensures
            final(self).wf(),
            final(self)@ == add_scopes(old(self)@, (template@, method), strs(scopes@).to_set()),
    {
        let k = Ghost((template@, method));
        match self.find_entry(template, method) {
            Some(i) => {
                let mut merged: Vec<String> = Vec::new();
                append_strings(&mut merged, &self.entries[i].scopes);
                append_unique(&mut merged, scopes);
                let e = EndpointPermission {
                    template: self.entries[i].template.clone(),
                    pattern: self.entries[i].pattern.clone(),
                    method,
                    scopes: merged,
                };
                let ghost before = self.entries@;
                self.entries.set(i, e);
                proof {
                    assert forall|x: int| 0 <= x < before.len() && x != i implies !entry_has_key(
                        before[x],
                        k@,
                    ) by {
                        if x < i {
                            assert(!entry_has_key(before[x], (before[i as int].template@, before[i as int].method)));
                        } else {
                            assert(!entry_has_key(before[i as int], (before[x].template@, before[x].method)));
                        }
                    }
                    assert forall|kk: TableKey| #[trigger] table_has(self.entries@, kk) == table_has(before, kk) by {
                        if table_has(before, kk) {
                            let x = choose|x: int| 0 <= x < before.len() && entry_has_key(before[x], kk);
                            assert(entry_has_key(self.entries@[x], kk));
                        }
                        if table_has(self.entries@, kk) {
                            let x = choose|x: int| 0 <= x < self.entries@.len() && entry_has_key(self.entries@[x], kk);
                            assert(entry_has_key(before[x], kk));
                        }
                    }
                    assert(table_scopes(before, k@) =~= strs(before[i as int].scopes@).to_set());
                    assert forall|sc: Seq<char>| #[trigger] table_scopes(self.entries@, k@).contains(sc) == strs(merged@).contains(sc) by {
                        if strs(merged@).contains(sc) {
                            assert(entry_has_key(self.entries@[i as int], k@));
                        }
                        if table_scopes(self.entries@, k@).contains(sc) {
                            let x = choose|x: int| 0 <= x < self.entries@.len() && entry_has_key(#[trigger] self.entries@[x], k@) && strs(self.entries@[x].scopes@).contains(sc);
                            assert(x == i);
                        }
                    }
                    assert(table_scopes(self.entries@, k@) =~= strs(merged@).to_set());
                    assert(strs(merged@).to_set() == strs(before[i as int].scopes@).to_set().union(strs(scopes@).to_set()));
                    assert forall|kk: TableKey| kk != k@ implies #[trigger] table_scopes(self.entries@, kk) == table_scopes(before, kk) by {
                        assert forall|sc: Seq<char>| #[trigger] table_scopes(self.entries@, kk).contains(sc) == table_scopes(before, kk).contains(sc) by {
                            if table_scopes(before, kk).contains(sc) {
                                let x = choose|x: int| 0 <= x < before.len() && entry_has_key(#[trigger] before[x], kk) && strs(before[x].scopes@).contains(sc);
                                assert(x != i);
                                assert(self.entries@[x] == before[x]);
                            }
                            if table_scopes(self.entries@, kk).contains(sc) {
                                let x = choose|x: int| 0 <= x < self.entries@.len() && entry_has_key(#[trigger] self.entries@[x], kk) && strs(self.entries@[x].scopes@).contains(sc);
                                assert(x != i);
                                assert(self.entries@[x] == before[x]);
                            }
                        }
                        assert(table_scopes(self.entries@, kk) =~= table_scopes(before, kk));
                    }
                    assert(self@ =~= add_scopes(old(self)@, k@, strs(scopes@).to_set()));
                }
            },
            None => {
                let mut copied: Vec<String> = Vec::new();
                proof {
                    assert(strs(copied@) =~= Seq::<Seq<char>>::empty());
                }
                append_unique(&mut copied, scopes);
                let e = EndpointPermission {
                    template: template.clone(),
                    pattern: find_regex_for_endpoint(template.as_str()),
                    method,
                    scopes: copied,
                };
                let ghost before = self.entries@;
                self.entries.push(e);
                proof {
                    let n = before.len() as int;
                    assert forall|kk: TableKey| kk != k@ implies #[trigger] table_has(self.entries@, kk) == table_has(before, kk) by {
                        if table_has(before, kk) {
                            let x = choose|x: int| 0 <= x < before.len() && entry_has_key(before[x], kk);
                            assert(entry_has_key(self.entries@[x], kk));
                        }
                    }
                    assert(table_has(self.entries@, k@)) by {
                        assert(entry_has_key(self.entries@[n], k@));
                    }
                    assert(table_scopes(self.entries@, k@) =~= strs(copied@).to_set());
                    assert forall|kk: TableKey| kk != k@ implies #[trigger] table_scopes(self.entries@, kk) == table_scopes(before, kk) by {
                        assert forall|sc: Seq<char>| #[trigger] table_scopes(self.entries@, kk).contains(sc) == table_scopes(before, kk).contains(sc) by {
                            if table_scopes(before, kk).contains(sc) {
                                let x = choose|x: int| 0 <= x < before.len() && entry_has_key(#[trigger] before[x], kk) && strs(before[x].scopes@).contains(sc);
                                assert(self.entries@[x] == before[x]);
                            }
                            if table_scopes(self.entries@, kk).contains(sc) {
                                let x = choose|x: int| 0 <= x < self.entries@.len() && entry_has_key(#[trigger] self.entries@[x], kk) && strs(self.entries@[x].scopes@).contains(sc);
                                assert(x < n);
                                assert(self.entries@[x] == before[x]);
                            }
                        }
                        assert(table_scopes(self.entries@, kk) =~= table_scopes(before, kk));
                    }
                    assert(!old(self)@.contains_key(k@));
                    assert(Seq::<Seq<char>>::empty().to_set() =~= Set::<Seq<char>>::empty());
                    assert(Set::<Seq<char>>::empty().union(strs(scopes@).to_set()) =~= strs(copied@).to_set());
                    assert(self@ =~= add_scopes(old(self)@, k@, strs(scopes@).to_set()));
                }
            },
        }
    }
}

/// The table `m` with the operations `ops` of the template `key` added.
pub open spec fn add_ops(
    m: Map<TableKey, Set<Seq<char>>>,
    key: Seq<char>,
    ops: Seq<(RequestType, Set<Seq<char>>)>,
) -> Map<TableKey, Set<Seq<char>>>
    decreases ops.len(),
{
    if ops.len() == 0 {
        m
    } else {
        add_scopes(add_ops(m, key, ops.drop_last()), (key, ops.last().0), ops.last().1)
    }
}

/// The table `m` with every operation of the document paths `paths` added.
pub open spec fn add_document(m: Map<TableKey, Set<Seq<char>>>, paths: Seq<(String, Endpoint)>) -> Map<
    TableKey,
    Set<Seq<char>>,
>
    decreases paths.len(),
{
    if paths.len() == 0 {
        m
    } else {
        add_ops(add_document(m, paths.drop_last()), paths.last().0@, declared_methods(paths.last().1))
    }
}

proof fn lemma_add_scopes_grows(m: Map<TableKey, Set<Seq<char>>>, key: TableKey, s: Set<Seq<char>>, k: TableKey)
    ensures
        m.contains_key(k) ==> add_scopes(m, key, s).contains_key(k),
        scopes_or_empty(m, k).subset_of(scopes_or_empty(add_scopes(m, key, s), k)),
        add_scopes(m, key, s).contains_key(key),
        scopes_or_empty(m, key).union(s).subset_of(scopes_or_empty(add_scopes(m, key, s), key)),
{
}

proof fn lemma_add_ops_grows(
    m: Map<TableKey, Set<Seq<char>>>,
    key: Seq<char>,
    ops: Seq<(RequestType, Set<Seq<char>>)>,
    k: TableKey,
)
    ensures
        m.contains_key(k) ==> add_ops(m, key, ops).contains_key(k),
        scopes_or_empty(m, k).subset_of(scopes_or_empty(add_ops(m, key, ops), k)),
    decreases ops.len(),
{
    if ops.len() > 0 {
        let prev = add_ops(m, key, ops.drop_last());
        lemma_add_ops_grows(m, key, ops.drop_last(), k);
        lemma_add_scopes_grows(prev, (key, ops.last().0), ops.last().1, k);
    }
}

proof fn lemma_add_ops_adds(
    m: Map<TableKey, Set<Seq<char>>>,
    key: Seq<char>,
    ops: Seq<(RequestType, Set<Seq<char>>)>,
    j: int,
)
    requires
        0 <= j < ops.len(),
    ensures
        add_ops(m, key, ops).contains_key((key, ops[j].0)),
        scopes_or_empty(m, (key, ops[j].0)).union(ops[j].1).subset_of(
            scopes_or_empty(add_ops(m, key, ops), (key, ops[j].0)),
        ),
    decreases ops.len(),
{
    let k = (key, ops[j].0);
    let prev = add_ops(m, key, ops.drop_last());
    if j == ops.len() - 1 {
        lemma_add_ops_grows(m, key, ops.drop_last(), k);
        lemma_add_scopes_grows(prev, k, ops.last().1, k);
    } else {
        lemma_add_ops_adds(m, key, ops.drop_last(), j);
        lemma_add_scopes_grows(prev, (key, ops.last().0), ops.last().1, k);
    }
}

proof fn lemma_add_document_grows(
    m: Map<TableKey, Set<Seq<char>>>,
    paths: Seq<(String, Endpoint)>,
    k: TableKey,
)
    ensures
        m.contains_key(k) ==> add_document(m, paths).contains_key(k),
        scopes_or_empty(m, k).subset_of(scopes_or_empty(add_document(m, paths), k)),
    decreases paths.len(),
{
    if paths.len() > 0 {
        let prev = add_document(m, paths.drop_last());
        lemma_add_document_grows(m, paths.drop_last(), k);
        lemma_add_ops_grows(prev, paths.last().0@, declared_methods(paths.last().1), k);
    }
}

/// Adding a document keeps every scope that a key had and adds each scope
/// that the document lists for it: a key that collides ends with the union of
/// both, not with the last scopes written.
pub proof fn lemma_document_unions_scopes(
    m: Map<TableKey, Set<Seq<char>>>,
    paths: Seq<(String, Endpoint)>,
    i: int,
    j: int,
)
    requires
        0 <= i < paths.len(),
        0 <= j < declared_methods(paths[i].1).len(),
    ensures
        add_document(m, paths).contains_key((paths[i].0@, declared_methods(paths[i].1)[j].0)),
        scopes_or_empty(m, (paths[i].0@, declared_methods(paths[i].1)[j].0)).union(
            declared_methods(paths[i].1)[j].1,
        ).subset_of(
            scopes_or_empty(add_document(m, paths), (paths[i].0@, declared_methods(paths[i].1)[j].0)),
        ),
    decreases paths.len(),
{
    let k = (paths[i].0@, declared_methods(paths[i].1)[j].0);
    let prev = add_document(m, paths.drop_last());
    if i == paths.len() - 1 {
        lemma_add_document_grows(m, paths.drop_last(), k);
        lemma_add_ops_adds(prev, paths[i].0@, declared_methods(paths[i].1), j);
    } else {
        lemma_document_unions_scopes(m, paths.drop_last(), i, j);
        lemma_add_ops_grows(prev, paths.last().0@, declared_methods(paths.last().1), k);
    }
}

proof fn lemma_entries_view_push(t: Seq<EndpointPermission>, e: EndpointPermission)
    ensures
        entries_view(t.push(e)) == add_scopes(entries_view(t), (e.template@, e.method), strs(e.scopes@).to_set()),
{
    let u = t.push(e);
    let k = (e.template@, e.method);
    let lhs = entries_view(u);
    let rhs = add_scopes(entries_view(t), k, strs(e.scopes@).to_set());
    assert forall|kk: TableKey| lhs.contains_key(kk) == rhs.contains_key(kk) by {
        if table_has(t, kk) {
            let x = choose|x: int| 0 <= x < t.len() && entry_has_key(#[trigger] t[x], kk);
            assert(u[x] == t[x]);
        }
        if table_has(u, kk) {
            let x = choose|x: int| 0 <= x < u.len() && entry_has_key(#[trigger] u[x], kk);
            if x < t.len() {
                assert(u[x] == t[x]);
            }
        }
        if kk == k {
            assert(entry_has_key(u[t.len() as int], kk));
        }
    }
    assert forall|kk: TableKey| lhs.contains_key(kk) implies #[trigger] lhs[kk] == rhs[kk] by {
        assert forall|sc: Seq<char>| #[trigger] lhs[kk].contains(sc) == rhs[kk].contains(sc) by {
            if table_scopes(t, kk).contains(sc) {
                let x = choose|x: int| 0 <= x < t.len() && entry_has_key(#[trigger] t[x], kk) && strs(t[x].scopes@).contains(sc);
                assert(u[x] == t[x]);
                assert(table_has(t, kk));
            }
            if table_scopes(u, kk).contains(sc) {
                let x = choose|x: int| 0 <= x < u.len() && entry_has_key(#[trigger] u[x], kk) && strs(u[x].scopes@).contains(sc);
                if x < t.len() {
                    assert(u[x] == t[x]);
                    assert(table_has(t, kk));
                }
            }
            if kk == k && strs(e.scopes@).contains(sc) {
                assert(entry_has_key(u[t.len() as int], kk));
            }
        }
        assert(lhs[kk] =~= rhs[kk]);
    }
    assert(lhs =~= rhs);
}

proof fn lemma_union_add(
    a: Map<TableKey, Set<Seq<char>>>,
    b: Map<TableKey, Set<Seq<char>>>,
    k: TableKey,
    s: Set<Seq<char>>,
)
    ensures
        union_tables(a, add_scopes(b, k, s)) == add_scopes(union_tables(a, b), k, s),
{
    let lhs = union_tables(a, add_scopes(b, k, s));
    let rhs = add_scopes(union_tables(a, b), k, s);
    assert forall|kk: TableKey| lhs.contains_key(kk) implies #[trigger] lhs[kk] == rhs[kk] by {
        assert(lhs[kk] =~= rhs[kk]);
    }
    assert(lhs =~= rhs);
}

/// The union of two tables does not depend on their order.
pub proof fn lemma_union_commutes(a: Map<TableKey, Set<Seq<char>>>, b: Map<TableKey, Set<Seq<char>>>)
    ensures
        union_tables(a, b) == union_tables(b, a),
{
    let l = union_tables(a, b);
    let r = union_tables(b, a);
    assert forall|kk: TableKey| l.contains_key(kk) implies #[trigger] l[kk] == r[kk] by {
        assert(l[kk] =~= r[kk]);
    }
    assert(l =~= r);
}

proof fn lemma_union_empty(a: Map<TableKey, Set<Seq<char>>>)
    ensures
        union_tables(a, Map::empty()) == a,
{
    let lhs = union_tables(a, Map::empty());
    assert forall|kk: TableKey| lhs.contains_key(kk) implies #[trigger] lhs[kk] == a[kk] by {
        assert(lhs[kk] =~= a[kk]);
    }
    assert(lhs =~= a);
}

impl PermissionTable {
    /// Adds each operation of `ops` under the template `key`.
    fn add_operations(&mut self, key: &String, ops: &Vec<(String, RequestType, Vec<String>)>)
        requires
            old(self).wf(),
        ensures
            final(self).wf(),
            final(self)@ == add_ops(
                old(self)@,
                key@,
                ops@.map_values(|t: (String, RequestType, Vec<String>)| op_view(t)),
            ),
    {
        let ghost opv = ops@.map_values(|t: (String, RequestType, Vec<String>)| op_view(t));
        let mut i: usize = 0;
        proof {
            assert(opv.take(0).len() == 0);
        }
        while i < ops.len()
            invariant
                i <= ops@.len(),
                opv == ops@.map_values(|t: (String, RequestType, Vec<String>)| op_view(t)),
                self.wf(),
                self@ == add_ops(old(self)@, key@, opv.take(i as int)),
            decreases ops@.len() - i,
        {
            self.insert(key, ops[i].1, &ops[i].2);
            proof {
                assert(opv.take(i + 1).drop_last() =~= opv.take(i as int));
            }
            i = i + 1;
        }
        proof {
            assert(opv.take(ops@.len() as int) =~= opv);
        }
    }

    /// Adds every operation of a decoded specification document. Scopes of a
    /// key that is already present are kept beside the new ones.
    pub fn ingest_document(&mut self, doc: &SwaggerResponse)
        requires
            old(self).wf(),
        ensures
            final(self).wf(),
            final(self)@ == add_document(old(self)@, doc.paths@),
    {
        let paths = &doc.paths;
        let mut i: usize = 0;
        proof {
            assert(paths@.take(0).len() == 0);
        }
        while i < paths.len()
            invariant
                i <= paths@.len(),
                self.wf(),
                self@ == add_document(old(self)@, paths@.take(i as int)),
            decreases paths@.len() - i,
        {
            let key = &paths[i].0;
            let ops = get_request_type(&paths[i].1, key.as_str());
            self.add_operations(key, &ops);
            proof {
                assert(paths@.take(i + 1).drop_last() =~= paths@.take(i as int));
            }
            i = i + 1;
        }
        proof {
            assert(paths@.take(paths@.len() as int) =~= paths@);
        }
    }
}

/// The table of one specification source, given what fetching and decoding
/// it gave: the table of the document, or the empty table when the source
/// could not be had.
pub fn ingest(source: &Option<SwaggerResponse>) -> (r: PermissionTable)
    ensures
        r.wf(),
        match source {
            Some(doc) => r@ == add_document(Map::empty(), doc.paths@),
            None => r@ == Map::<TableKey, Set<Seq<char>>>::empty(),
        },
{
    let mut table = PermissionTable::new();
    if let Some(doc) = source {
        table.ingest_document(doc);
    }
    table
}

/// The union of two tables: every key of either, with the union of the
/// scopes that each gives it.
pub fn merge(a: &PermissionTable, b: &PermissionTable) -> (r: PermissionTable)
    requires
        a.wf(),
        b.wf(),
    ensures
        r.wf(),
        r@ == union_tables(a@, b@),
{
    let mut r = PermissionTable::new();
    let mut i: usize = 0;
    proof {
        assert(a.entries@.take(0) =~= Seq::<EndpointPermission>::empty());
        assert(entries_view(Seq::<EndpointPermission>::empty()) =~= Map::<TableKey, Set<Seq<char>>>::empty());
    }
    while i < a.entries.len()
        invariant
            i <= a.entries@.len(),
            r.wf(),
            r@ == entries_view(a.entries@.take(i as int)),
        decreases a.entries@.len() - i,
    {
        let e = &a.entries[i];
        r.insert(&e.template, e.method, &e.scopes);
        proof {
            assert(a.entries@.take(i + 1) =~= a.entries@.take(i as int).push(a.entries@[i as int]));
            lemma_entries_view_push(a.entries@.take(i as int), a.entries@[i as int]);
        }
        i = i + 1;
    }
    let mut j: usize = 0;
    proof {
        assert(a.entries@.take(a.entries@.len() as int) =~= a.entries@);
        assert(b.entries@.take(0) =~= Seq::<EndpointPermission>::empty());
        assert(entries_view(Seq::<EndpointPermission>::empty()) =~= Map::<TableKey, Set<Seq<char>>>::empty());
        lemma_union_empty(a@);
    }
    while j < b.entries.len()
        invariant
            j <= b.entries@.len(),
            r.wf(),
            r@ == union_tables(a@, entries_view(b.entries@.take(j as int))),
        decreases b.entries@.len() - j,
    {
        let e = &b.entries[j];
        r.insert(&e.template, e.method, &e.scopes);
        proof {
            let t = b.entries@.take(j as int);
            let x = b.entries@[j as int];
            assert(b.entries@.take(j + 1) =~= t.push(x));
            lemma_entries_view_push(t, x);
            lemma_union_add(a@, entries_view(t), (x.template@, x.method), strs(x.scopes@).to_set());
        }
        j = j + 1;
    }
    proof {
        assert(b.entries@.take(b.entries@.len() as int) =~= b.entries@);
    }
    r
}

/// The scopes that a request needs: among the entries for `request` whose
/// pattern accepts `url`, those of one with the longest pattern; none when no
/// such entry exists.
pub fn check_url_for_permissions(permission_map: &PermissionTable, request: RequestType, url: &str) -> (r: Vec<String>)
    requires
        permission_map.wf(),
    ensures
        strs(r@).no_duplicates(),
        !(exists|i: int| is_candidate(permission_map.entries@, request, url@, i)) ==> r@.len() == 0,
        (exists|i: int| is_candidate(permission_map.entries@, request, url@, i)) ==> exists|i: int|
            is_best(permission_map.entries@, request, url@, i) && strs(r@) == strs(
                permission_map.entries@[i].scopes@,
            ),
{
    let t = &permission_map.entries;
    let mut best: Option<usize> = None;
    let mut best_len: usize = 0;
    let mut i: usize = 0;
    while i < t.len()
        invariant
            i <= t@.len(),
            match best {
                Some(b) => b < i && is_candidate(t@, request, url@, b as int) && best_len == t@[b as int].pattern@.len()
                    && forall|j: int| 0 <= j < i && is_candidate(t@, request, url@, j) ==> t@[j].pattern@.len() <= best_len,
                None => forall|j: int| 0 <= j < i ==> !is_candidate(t@, request, url@, j),
            },
        decreases t@.len() - i,
    {
        let e = &t[i];
        if e.method == request && pattern_accepts(e.pattern.as_str(), url) {
            let len = e.pattern.as_str().unicode_len();
            match best {
                Some(_) => {
                    if len > best_len {
                        best = Some(i);
                        best_len = len;
                    }
                },
                None => {
                    best = Some(i);
                    best_len = len;
                },
            }
        }
        i = i + 1;
    }
    match best {
        Some(b) => {
            let mut out: Vec<String> = Vec::new();
            append_strings(&mut out, &t[b].scopes);
            proof {
                assert(strs(out@) =~= strs(t@[b as int].scopes@));
                assert(is_best(t@, request, url@, b as int));
            }
            out
        },
        None => {
            let out: Vec<String> = Vec::new();
            assert(strs(out@) =~= Seq::<Seq<char>>::empty());
            out
        },
    }
}

} // verus!
