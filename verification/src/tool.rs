//! The tool registry: manifests kept in order of their names, one per name, and
//! the plan of an HTTP call to a registered tool.
use vstd::prelude::*;

use crate::config::copy_optional_text;
use crate::text::{
    compare_text, join_path, joined_path, text_bytes, lemma_text_lt_irreflexive, lemma_text_lt_transitive,
    same_text, text_lt, trim_trailing_slashes, without_trailing_slashes, TextOrder,
};

verus! {

/// How a tool is reached.
#[derive(Debug, Clone, Copy, PartialEq, Eq, Structural)]
pub enum ToolKind {
    Http,
    Mcp,
}

/// The declaration of a tool.
#[derive(Debug, Clone)]
pub struct ToolManifest {
    pub name: String,
    pub description: String,
    pub kind: ToolKind,
    pub base_url: Option<String>,
    pub method: Option<String>,
    pub path: Option<String>,
    pub timeout_secs: u64,
}

/// The directory that holds tool manifests under the configuration directory.
pub fn default_tools_dir(config_dir: &[u8]) -> (r: Vec<u8>)
    ensures
        r@ == joined_path(config_dir@, text_bytes("tools"@)),
{
    join_path(config_dir, "tools".as_bytes())
}

/// The timeout of a tool whose manifest gives none, in seconds.
pub fn default_timeout() -> (r: u64)
    ensures
        r == 30,
{
    30
}

impl ToolManifest {
    /// A copy of this manifest.
    pub fn duplicate(&self) -> (r: ToolManifest)
        ensures
            r == *self,
    {
        ToolManifest {
            name: self.name.clone(),
            description: self.description.clone(),
            kind: self.kind,
            base_url: copy_optional_text(&self.base_url),
            method: copy_optional_text(&self.method),
            path: copy_optional_text(&self.path),
            timeout_secs: self.timeout_secs,
        }
    }
}

/// The manifests of `s` are in strictly increasing order of their names.
pub open spec fn names_sorted(s: Seq<ToolManifest>) -> bool {
    forall|i: int, j: int|
        0 <= i < j < s.len() ==> text_lt(#[trigger] s[i].name@, #[trigger] s[j].name@)
}

/// Some manifest of `s` has the name `k`.
pub open spec fn has_name(s: Seq<ToolManifest>, k: Seq<char>) -> bool {
    exists|i: int| 0 <= i < s.len() && #[trigger] s[i].name@ == k
}

/// The registry that the manifests `s` make up, from each name to its manifest.
pub open spec fn entries_map(s: Seq<ToolManifest>) -> Map<Seq<char>, ToolManifest> {
    Map::new(
        |k: Seq<char>| has_name(s, k),
        |k: Seq<char>| s[choose|i: int| 0 <= i < s.len() && #[trigger] s[i].name@ == k],
    )
}

/// In sorted manifests each name occurs once, so the registry maps a manifest's
/// name to that very manifest.
proof fn lemma_entries_map_at(s: Seq<ToolManifest>, i: int)
    requires
        names_sorted(s),
        0 <= i < s.len(),
    ensures
        entries_map(s).contains_key(s[i].name@),
        entries_map(s)[s[i].name@] == s[i],
{
    let k = s[i].name@;
    assert(has_name(s, k));
    let j = choose|j: int| 0 <= j < s.len() && #[trigger] s[j].name@ == k;
    if j < i {
        assert(text_lt(s[j].name@, s[i].name@));
        lemma_text_lt_irreflexive(k);
    } else if i < j {
        assert(text_lt(s[i].name@, s[j].name@));
        lemma_text_lt_irreflexive(k);
    }
}

/// Two sorted manifest sequences with the same names, manifest for manifest,
/// make up the registry that `m` describes, given what each holds.
proof fn lemma_entries_map_equal(s: Seq<ToolManifest>, m: Map<Seq<char>, ToolManifest>)
    requires
        names_sorted(s),
        forall|k: Seq<char>| m.contains_key(k) <==> has_name(s, k),
        forall|i: int| 0 <= i < s.len() ==> m[#[trigger] s[i].name@] == s[i],
    ensures
        entries_map(s) == m,
{
    assert forall|k: Seq<char>| #[trigger] entries_map(s).contains_key(k) implies entries_map(s)[k]
        == m[k] by {
        let i = choose|i: int| 0 <= i < s.len() && #[trigger] s[i].name@ == k;
        lemma_entries_map_at(s, i);
    }
    assert(entries_map(s) =~= m);
}

/// Where a manifest named `name` belongs in the sorted manifests `tools`: the
/// position of the first name that does not come before it, and whether that
/// name is `name` itself.
fn insertion_point(tools: &Vec<ToolManifest>, name: &str) -> (r: (usize, bool))
    requires
        names_sorted(tools@),
    ensures
        r.0 <= tools@.len(),
        forall|j: int| 0 <= j < r.0 ==> text_lt(#[trigger] tools@[j].name@, name@),
        r.1 ==> r.0 < tools@.len() && tools@[r.0 as int].name@ == name@,
        !r.1 ==> forall|j: int| r.0 <= j < tools@.len() ==> text_lt(name@, #[trigger] tools@[j].name@),
        !r.1 ==> !has_name(tools@, name@),
{
    let n = tools.len();
    let mut i: usize = 0;
    while i < n
        invariant
            n == tools@.len(),
            i <= n,
            names_sorted(tools@),
            forall|j: int| 0 <= j < i ==> text_lt(#[trigger] tools@[j].name@, name@),
        decreases n - i,
    {
        match compare_text(tools[i].name.as_str(), name) {
            TextOrder::Before => {
                i = i + 1;
            },
            TextOrder::Same => {
                return (i, true);
            },
            TextOrder::After => {
                proof {
                    assert forall|j: int| i <= j < tools@.len() implies text_lt(
                        name@,
                        #[trigger] tools@[j].name@,
                    ) by {
                        if j > i {
                            assert(text_lt(tools@[i as int].name@, tools@[j].name@));
                            lemma_text_lt_transitive(name@, tools@[i as int].name@, tools@[j].name@);
                        }
                    }
                    lemma_absent(tools@, name@, i as int);
                }
                return (i, false);
            },
        }
    }
    proof {
        lemma_absent(tools@, name@, i as int);
    }
    (i, false)
}

/// A name that comes after every name before position `p` and before every name
/// from `p` on is not among the names.
proof fn lemma_absent(s: Seq<ToolManifest>, name: Seq<char>, p: int)
    requires
        0 <= p <= s.len(),
        forall|j: int| 0 <= j < p ==> text_lt(#[trigger] s[j].name@, name),
        forall|j: int| p <= j < s.len() ==> text_lt(name, #[trigger] s[j].name@),
    ensures
        !has_name(s, name),
{
    if has_name(s, name) {
        let j = choose|j: int| 0 <= j < s.len() && #[trigger] s[j].name@ == name;
        lemma_text_lt_irreflexive(name);
        if j < p {
            assert(text_lt(s[j].name@, name));
        } else {
            assert(text_lt(name, s[j].name@));
        }
    }
}

/// Replacing the manifest at position `p` by one of the same name keeps the
/// names sorted and updates the registry at that name.
proof fn lemma_replace(s: Seq<ToolManifest>, p: int, m: ToolManifest)
    requires
        names_sorted(s),
        0 <= p < s.len(),
        s[p].name@ == m.name@,
    ensures
        names_sorted(s.update(p, m)),
        entries_map(s.update(p, m)) == entries_map(s).insert(m.name@, m),
{
    let t = s.update(p, m);
    assert forall|i: int| 0 <= i < t.len() implies #[trigger] t[i].name@ == s[i].name@ by {}
    assert(names_sorted(t)) by {
        assert forall|i: int, j: int| 0 <= i < j < t.len() implies text_lt(
            #[trigger] t[i].name@,
            #[trigger] t[j].name@,
        ) by {
            assert(t[i].name@ == s[i].name@);
            assert(t[j].name@ == s[j].name@);
            assert(text_lt(s[i].name@, s[j].name@));
        }
    }
    let target = entries_map(s).insert(m.name@, m);
    assert forall|k: Seq<char>| target.contains_key(k) <==> has_name(t, k) by {
        if has_name(t, k) {
            let i = choose|i: int| 0 <= i < t.len() && #[trigger] t[i].name@ == k;
            assert(s[i].name@ == k);
            assert(has_name(s, k));
        }
        if has_name(s, k) {
            let i = choose|i: int| 0 <= i < s.len() && #[trigger] s[i].name@ == k;
            assert(t[i].name@ == k);
        }
        if k == m.name@ {
            assert(t[p].name@ == k);
        }
    }
    assert forall|i: int| 0 <= i < t.len() implies target[#[trigger] t[i].name@] == t[i] by {
        if i != p {
            lemma_entries_map_at(s, i);
            if s[i].name@ == m.name@ {
                if i < p {
                    assert(text_lt(s[i].name@, s[p].name@));
                } else {
                    assert(text_lt(s[p].name@, s[i].name@));
                }
                lemma_text_lt_irreflexive(m.name@);
            }
        }
    }
    lemma_entries_map_equal(t, target);
}

/// Inserting a manifest of a new name at its place keeps the names sorted and
/// adds it to the registry.
proof fn lemma_insert_new(s: Seq<ToolManifest>, p: int, m: ToolManifest)
    requires
        names_sorted(s),
        0 <= p <= s.len(),
        forall|j: int| 0 <= j < p ==> text_lt(#[trigger] s[j].name@, m.name@),
        forall|j: int| p <= j < s.len() ==> text_lt(m.name@, #[trigger] s[j].name@),
        !has_name(s, m.name@),
    ensures
        names_sorted(s.insert(p, m)),
        entries_map(s.insert(p, m)) == entries_map(s).insert(m.name@, m),
{
    let t = s.insert(p, m);
    assert(names_sorted(t)) by {
        assert forall|i: int, j: int| 0 <= i < j < t.len() implies text_lt(
            #[trigger] t[i].name@,
            #[trigger] t[j].name@,
        ) by {
            if j < p {
                assert(text_lt(s[i].name@, s[j].name@));
            } else if j == p {
                assert(text_lt(s[i].name@, m.name@));
            } else if i < p {
                assert(text_lt(s[i].name@, s[j - 1].name@));
            } else if i == p {
                assert(text_lt(m.name@, s[j - 1].name@));
            } else {
                assert(text_lt(s[i - 1].name@, s[j - 1].name@));
            }
        }
    }
    let target = entries_map(s).insert(m.name@, m);
    assert forall|k: Seq<char>| target.contains_key(k) <==> has_name(t, k) by {
        if has_name(t, k) {
            let i = choose|i: int| 0 <= i < t.len() && #[trigger] t[i].name@ == k;
            if i < p {
                assert(s[i].name@ == k);
            } else if i > p {
                assert(s[i - 1].name@ == k);
            }
        }
        if has_name(s, k) {
            let i = choose|i: int| 0 <= i < s.len() && #[trigger] s[i].name@ == k;
            if i < p {
                assert(t[i].name@ == k);
            } else {
                assert(t[i + 1].name@ == k);
            }
        }
        if k == m.name@ {
            assert(t[p].name@ == k);
        }
    }
    assert forall|i: int| 0 <= i < t.len() implies target[#[trigger] t[i].name@] == t[i] by {
        if i < p {
            lemma_entries_map_at(s, i);
        } else if i > p {
            lemma_entries_map_at(s, i - 1);
        }
    }
    lemma_entries_map_equal(t, target);
}

/// Removing the manifest at position `p` keeps the names sorted and removes its
/// name from the registry.
proof fn lemma_remove_at(s: Seq<ToolManifest>, p: int)
    requires
        names_sorted(s),
        0 <= p < s.len(),
    ensures
        names_sorted(s.remove(p)),
        entries_map(s.remove(p)) == entries_map(s).remove(s[p].name@),
{
    let t = s.remove(p);
    let name = s[p].name@;
    assert(names_sorted(t)) by {
        assert forall|i: int, j: int| 0 <= i < j < t.len() implies text_lt(
            #[trigger] t[i].name@,
            #[trigger] t[j].name@,
        ) by {
            let a = if i < p { i } else { i + 1 };
            let b = if j < p { j } else { j + 1 };
            assert(t[i] == s[a]);
            assert(t[j] == s[b]);
            assert(text_lt(s[a].name@, s[b].name@));
        }
    }
    let target = entries_map(s).remove(name);
    assert forall|i: int| 0 <= i < t.len() implies #[trigger] t[i].name@ != name by {
        let a = if i < p { i } else { i + 1 };
        assert(t[i] == s[a]);
        if a < p {
            assert(text_lt(s[a].name@, name));
        } else {
            assert(text_lt(name, s[a].name@));
        }
        lemma_text_lt_irreflexive(name);
    }
    assert forall|k: Seq<char>| target.contains_key(k) <==> has_name(t, k) by {
        if has_name(t, k) {
            let i = choose|i: int| 0 <= i < t.len() && #[trigger] t[i].name@ == k;
            let a = if i < p { i } else { i + 1 };
            assert(t[i] == s[a]);
            assert(s[a].name@ == k);
        }
        if has_name(s, k) && k != name {
            let i = choose|i: int| 0 <= i < s.len() && #[trigger] s[i].name@ == k;
            if i < p {
                assert(t[i].name@ == k);
            } else {
                assert(i != p);
                assert(t[i - 1].name@ == k);
            }
        }
    }
    assert forall|i: int| 0 <= i < t.len() implies target[#[trigger] t[i].name@] == t[i] by {
        let a = if i < p { i } else { i + 1 };
        assert(t[i] == s[a]);
        lemma_entries_map_at(s, a);
    }
    lemma_entries_map_equal(t, target);
}

/// What looking the tool `name` up in the registry `tools` gives.
pub open spec fn registry_lookup(tools: Map<Seq<char>, ToolManifest>, name: Seq<char>) -> Option<
    ToolManifest,
> {
    if tools.contains_key(name) {
        Some(tools[name])
    } else {
        None
    }
}

/// The registry `tools` after registering `m`: it replaces any tool of its name.
pub open spec fn registry_add(tools: Map<Seq<char>, ToolManifest>, m: ToolManifest) -> Map<
    Seq<char>,
    ToolManifest,
> {
    tools.insert(m.name@, m)
}

/// The registry `tools` after unregistering the tool `name`.
pub open spec fn registry_remove(tools: Map<Seq<char>, ToolManifest>, name: Seq<char>) -> Map<
    Seq<char>,
    ToolManifest,
> {
    tools.remove(name)
}

/// The registry that loading the manifests `ms` in order makes up: a later
/// manifest replaces an earlier one of the same name.
pub open spec fn registry_of(ms: Seq<ToolManifest>) -> Map<Seq<char>, ToolManifest>
    decreases ms.len(),
{
    if ms.len() == 0 {
        Map::empty()
    } else {
        registry_add(registry_of(ms.drop_last()), ms.last())
    }
}

/// Why a tool request was refused.
#[derive(Debug, Clone)]
pub enum ToolError {
    /// No tool of this name is registered.
    NotFound(String),
    /// The HTTP tool of this name has no base URL.
    MissingBaseUrl(String),
    /// The tool of this name is reached over MCP, which is not implemented.
    McpNotImplemented(String),
    /// The tool of this name refused the call with this status and body.
    Rejected { name: String, status: String, body: String },
}

/// The error of a call of the tool `name` that its endpoint refused with the
/// status `status` and the body `body`.
pub fn rejected_call(name: &str, status: String, body: String) -> (r: ToolError)
    ensures
        r matches ToolError::Rejected { name: n, status: s, body: b } && n@ == name@ && s == status
            && b == body,
{
    ToolError::Rejected { name: String::from_str(name), status, body }
}

/// A registry loaded from manifests holds a name exactly when one of the
/// manifests has it.
pub proof fn lemma_loaded_names(ms: Seq<ToolManifest>, k: Seq<char>)
    ensures
        registry_of(ms).contains_key(k) <==> has_name(ms, k),
    decreases ms.len(),
{
    if ms.len() > 0 {
        let init = ms.drop_last();
        lemma_loaded_names(init, k);
        if has_name(init, k) {
            let i = choose|i: int| 0 <= i < init.len() && #[trigger] init[i].name@ == k;
            assert(ms[i].name@ == k);
        }
        if has_name(ms, k) && k != ms.last().name@ {
            let i = choose|i: int| 0 <= i < ms.len() && #[trigger] ms[i].name@ == k;
            assert(init[i].name@ == k);
        }
        if k == ms.last().name@ {
            assert(ms[ms.len() - 1].name@ == k);
        }
    }
}

/// Loading manifests in order, the last manifest of a name is the one the
/// registry holds for it.
pub proof fn lemma_loaded_last_wins(ms: Seq<ToolManifest>, i: int)
    requires
        0 <= i < ms.len(),
        forall|j: int| i < j < ms.len() ==> #[trigger] ms[j].name@ != ms[i].name@,
    ensures
        registry_lookup(registry_of(ms), ms[i].name@) == Some(ms[i]),
    decreases ms.len(),
{
    lemma_loaded_names(ms, ms[i].name@);
    assert(ms[i].name@ == ms[i].name@);
    if i < ms.len() - 1 {
        let init = ms.drop_last();
        assert(init[i] == ms[i]);
        assert forall|j: int| i < j < init.len() implies #[trigger] init[j].name@ != init[i].name@ by {
            assert(init[j] == ms[j]);
        }
        lemma_loaded_last_wins(init, i);
        assert(ms[ms.len() - 1].name@ != ms[i].name@);
    }
}

/// Every tool of a registry is registered under its own name.
pub proof fn lemma_registered_under_own_name(reg: &ToolRegistry, k: Seq<char>)
    requires
        reg@.contains_key(k),
    ensures
        reg@[k].name@ == k,
{
    reg.lemma_view_keys(k);
}

/// Looking a tool up right after registering it gives back the manifest that
/// was registered.
pub proof fn lemma_add_then_get(tools: Map<Seq<char>, ToolManifest>, m: ToolManifest)
    ensures
        registry_lookup(registry_add(tools, m), m.name@) == Some(m),
{
}

/// Registering a tool leaves the lookup of every other name as it was.
pub proof fn lemma_add_keeps_others(tools: Map<Seq<char>, ToolManifest>, m: ToolManifest, k: Seq<char>)
    requires
        k != m.name@,
    ensures
        registry_lookup(registry_add(tools, m), k) == registry_lookup(tools, k),
{
}

/// Registering a tool of a name not yet registered and then unregistering it
/// restores the registry.
pub proof fn lemma_remove_undoes_add(tools: Map<Seq<char>, ToolManifest>, m: ToolManifest)
    requires
        registry_lookup(tools, m.name@) is None,
    ensures
        registry_remove(registry_add(tools, m), m.name@) == tools,
{
    assert(registry_remove(registry_add(tools, m), m.name@) =~= tools);
}

/// Once a tool is unregistered, looking it up finds nothing.
pub proof fn lemma_removed_not_found(tools: Map<Seq<char>, ToolManifest>, name: Seq<char>)
    ensures
        registry_lookup(registry_remove(tools, name), name) is None,
{
}

/// Unregistering a tool leaves the lookup of every other name as it was.
pub proof fn lemma_remove_keeps_others(tools: Map<Seq<char>, ToolManifest>, name: Seq<char>, k: Seq<char>)
    requires
        k != name,
    ensures
        registry_lookup(registry_remove(tools, name), k) == registry_lookup(tools, k),
{
}

/// Registering the same manifest twice is the same as registering it once.
pub proof fn lemma_add_idempotent(tools: Map<Seq<char>, ToolManifest>, m: ToolManifest)
    ensures
        registry_add(registry_add(tools, m), m) == registry_add(tools, m),
{
    assert(registry_add(registry_add(tools, m), m) =~= registry_add(tools, m));
}

impl ToolError {
    /// The message that describes this error.
    pub fn message(&self) -> (r: String)
        ensures
            self matches ToolError::NotFound(n) ==> r@ == "tool not found: "@ + n@,
            self matches ToolError::MissingBaseUrl(n) ==> r@ == "http tool '"@ + n@
                + "' missing base_url"@,
            self matches ToolError::McpNotImplemented(n) ==> r@ == "MCP tool '"@ + n@
                + "' invocation not yet implemented (planned for v0.3)"@,
            self matches ToolError::Rejected { name, status, body } ==> r@ == "tool '"@ + name@
                + "' returned "@ + status@ + ": "@ + body@,
    {
        match self {
            ToolError::NotFound(n) => {
                let mut r = String::from_str("tool not found: ");
                r.append(n.as_str());
                r
            },
            ToolError::MissingBaseUrl(n) => {
                let mut r = String::from_str("http tool '");
                r.append(n.as_str());
                r.append("' missing base_url");
                r
            },
            ToolError::McpNotImplemented(n) => {
                let mut r = String::from_str("MCP tool '");
                r.append(n.as_str());
                r.append("' invocation not yet implemented (planned for v0.3)");
                r
            },
            ToolError::Rejected { name, status, body } => {
                let mut r = String::from_str("tool '");
                r.append(name.as_str());
                r.append("' returned ");
                r.append(status.as_str());
                r.append(": ");
                r.append(body.as_str());
                r
            },
        }
    }
}

/// The HTTP method of a tool call.
#[derive(Debug, Clone, Copy, PartialEq, Eq, Structural)]
pub enum HttpMethod {
    Get,
    Post,
}

/// An HTTP call to a tool, as planned from its manifest.
#[derive(Debug, Clone)]
pub struct HttpCall {
    pub url: String,
    pub method: HttpMethod,
    pub timeout_secs: u64,
}

/// Whether the method name `m` reads `GET` once upper-cased: the letters g, e, t
/// in either case (no other character upper-cases to one of these letters).
pub open spec fn is_get_method(m: Seq<char>) -> bool {
    &&& m.len() == 3
    &&& (m[0] == 'G' || m[0] == 'g')
    &&& (m[1] == 'E' || m[1] == 'e')
    &&& (m[2] == 'T' || m[2] == 't')
}

/// The method a tool is called with: GET when its manifest says so, POST otherwise
/// (also when it names none).
pub open spec fn method_of(method: Option<String>) -> HttpMethod {
    match method {
        Some(m) => if is_get_method(m@) {
            HttpMethod::Get
        } else {
            HttpMethod::Post
        },
        None => HttpMethod::Post,
    }
}

/// The code of `c` upper-cased when it is an ASCII lower-case letter, else the
/// code of `c` itself.
pub open spec fn ascii_upper_code(c: char) -> u32 {
    if 'a' <= c && c <= 'z' {
        (c as u32 - 32) as u32
    } else {
        c as u32
    }
}

/// A manifest's method selects GET exactly when it has three characters that
/// read G, E, T once upper-cased (so `GET`, `get`, `Get` and the like); any other
/// method, and a missing one, selects POST.
pub proof fn lemma_method_is_get_in_any_case(m: String)
    ensures
        (method_of(Some(m)) == HttpMethod::Get) == (m@.len() == 3 && ascii_upper_code(m@[0]) == 71
            && ascii_upper_code(m@[1]) == 69 && ascii_upper_code(m@[2]) == 84),
        method_of(Some(m)) == HttpMethod::Get || method_of(Some(m)) == HttpMethod::Post,
        method_of(None) == HttpMethod::Post,
{
    if m@.len() == 3 {
        lemma_upper_code_letter(m@[0], 'G', 'g');
        lemma_upper_code_letter(m@[1], 'E', 'e');
        lemma_upper_code_letter(m@[2], 'T', 't');
    }
}

/// An ASCII capital letter is the upper case of itself and of its lower-case
/// letter only.
proof fn lemma_upper_code_letter(c: char, upper: char, lower: char)
    requires
        'A' <= upper <= 'Z',
        lower as u32 == upper as u32 + 32,
    ensures
        (ascii_upper_code(c) == upper as u32) == (c == upper || c == lower),
{
}

/// The URL a tool is called at: its base URL without trailing slashes, followed
/// by its path (nothing when it has none).
pub open spec fn url_of(base_url: Seq<char>, path: Option<String>) -> Seq<char> {
    without_trailing_slashes(base_url) + match path {
        Some(p) => p@,
        None => Seq::<char>::empty(),
    }
}

/// Decides the method of a call from the method name of a manifest.
fn decide_method(method: &Option<String>) -> (r: HttpMethod)
    ensures
        r == method_of(*method),
{
    match method {
        None => HttpMethod::Post,
        Some(m) => {
            let s = m.as_str();
            if s.unicode_len() == 3 {
                let a = s.get_char(0);
                let b = s.get_char(1);
                let c = s.get_char(2);
                if (a == 'G' || a == 'g') && (b == 'E' || b == 'e') && (c == 'T' || c == 't') {
                    HttpMethod::Get
                } else {
                    HttpMethod::Post
                }
            } else {
                HttpMethod::Post
            }
        },
    }
}

/// The query of a GET call, from the entries of the call's parameters: each key
/// with its text value, or with empty text where the value is not text.
pub fn query_pairs(entries: &Vec<(String, Option<String>)>) -> (r: Vec<(String, String)>)
    ensures
        r@.len() == entries@.len(),
        forall|i: int|
            0 <= i < r@.len() ==> (#[trigger] r@[i]).0@ == entries@[i].0@ && r@[i].1@ == match entries@[i].1 {
                Some(v) => v@,
                None => Seq::<char>::empty(),
            },
{
    let n = entries.len();
    let mut r: Vec<(String, String)> = Vec::new();
    let mut i: usize = 0;
    while i < n
        invariant
            n == entries@.len(),
            i <= n,
            r@.len() == i,
            forall|j: int|
                0 <= j < i ==> (#[trigger] r@[j]).0@ == entries@[j].0@ && r@[j].1@ == match entries@[j].1 {
                    Some(v) => v@,
                    None => Seq::<char>::empty(),
                },
        decreases n - i,
    {
        let key = entries[i].0.clone();
        let value = match &entries[i].1 {
            Some(v) => v.clone(),
            None => String::new(),
        };
        r.push((key, value));
        i = i + 1;
    }
    r
}

/// Whether the file name `name` has the extension `toml`: after its last dot,
/// which is not its first character, comes exactly `toml`.
pub open spec fn has_toml_extension(name: Seq<char>) -> bool {
    exists|k: int| #[trigger] toml_dot_at(name, k)
}

/// `k` is the position of the last dot of `name`, not its first character, and
/// `toml` follows it.
pub open spec fn toml_dot_at(name: Seq<char>, k: int) -> bool {
    &&& 0 < k < name.len()
    &&& name[k] == '.'
    &&& forall|j: int| k < j < name.len() ==> name[j] != '.'
    &&& name.subrange(k + 1, name.len() as int) == "toml"@
}

/// Whether the file name `file_name` is that of a tool manifest, by its `toml`
/// extension.
pub fn is_manifest_file(file_name: &str) -> (r: bool)
    ensures
        r == has_toml_extension(file_name@),
{
    let n = file_name.unicode_len();
    let mut i = n;
    while i > 0 && file_name.get_char(i - 1) != '.'
        invariant
            n == file_name@.len(),
            i <= n,
            forall|j: int| i <= j < n ==> file_name@[j] != '.',
        decreases i,
    {
        i = i - 1;
    }
    if i <= 1 {
        proof {
            if has_toml_extension(file_name@) {
                let k = choose|k: int| #[trigger] toml_dot_at(file_name@, k);
                assert(file_name@[k] == '.');
            }
        }
        return false;
    }
    let k = i - 1;
    let suffix = file_name.substring_char(i, n);
    let r = same_text(suffix, "toml");
    proof {
        if has_toml_extension(file_name@) {
            let k2 = choose|k2: int| #[trigger] toml_dot_at(file_name@, k2);
            if k2 < k {
                assert(file_name@[k as int] == '.');
            }
            assert(k2 == k);
        }
        if r {
            assert(toml_dot_at(file_name@, k as int));
        }
    }
    r
}

/// A registry of tools, whose manifests live as files in one directory.
#[derive(Debug)]
pub struct ToolRegistry {
    tools_dir: Vec<u8>,
    tools: Vec<ToolManifest>,
}

impl View for ToolRegistry {
    type V = Map<Seq<char>, ToolManifest>;

    closed spec fn view(&self) -> Map<Seq<char>, ToolManifest> {
        entries_map(self.tools@)
    }
}

impl ToolRegistry {
    #[verifier::type_invariant]
    spec fn sorted(self) -> bool {
        names_sorted(self.tools@)
    }

    /// The registry holds each manifest under its name.
    proof fn lemma_view_keys(&self, k: Seq<char>)
        requires
            self@.contains_key(k),
        ensures
            self@[k].name@ == k,
    {
        let s = self.tools@;
        assert(has_name(s, k));
        let i = choose|i: int| 0 <= i < s.len() && #[trigger] s[i].name@ == k;
        assert(s[i].name@ == k);
    }

    /// The directory that holds the manifest files.
    pub closed spec fn dir(&self) -> Seq<u8> {
        self.tools_dir@
    }

    /// An empty registry whose manifests live under `tools_dir`.
    pub fn new(tools_dir: Vec<u8>) -> (r: ToolRegistry)
        ensures
            r@ == Map::<Seq<char>, ToolManifest>::empty(),
            r.dir() == tools_dir@,
    {
        let tools: Vec<ToolManifest> = Vec::new();
        assert(names_sorted(tools@));
        let r = ToolRegistry { tools_dir, tools };
        assert(r@ =~= Map::<Seq<char>, ToolManifest>::empty());
        r
    }

    /// The directory that holds the manifest files.
    pub fn tools_dir(&self) -> (r: &[u8])
        ensures
            r@ == self.dir(),
    {
        self.tools_dir.as_slice()
    }

    /// The position of the tool `name`, if it is registered.
    fn position(&self, name: &str) -> (r: Option<usize>)
        ensures
            match r {
                Some(i) => i < self.tools@.len() && self.tools@[i as int].name@ == name@,
                None => !has_name(self.tools@, name@),
            },
    {
        let n = self.tools.len();
        let mut i: usize = 0;
        while i < n
            invariant
                n == self.tools@.len(),
                i <= n,
                forall|j: int| 0 <= j < i ==> #[trigger] self.tools@[j].name@ != name@,
            decreases n - i,
        {
            if same_text(self.tools[i].name.as_str(), name) {
                return Some(i);
            }
            i = i + 1;
        }
        None
    }

    /// The manifest of the tool `name`, if it is registered.
    pub fn get(&self, name: &str) -> (r: Option<&ToolManifest>)
        ensures
            match r {
                Some(m) => self@.contains_key(name@) && *m == self@[name@],
                None => !self@.contains_key(name@),
            },
            match r {
                Some(m) => registry_lookup(self@, name@) == Some(*m),
                None => registry_lookup(self@, name@) is None,
            },
    {
        proof {
            use_type_invariant(self);
        }
        match self.position(name) {
            Some(i) => {
                proof {
                    lemma_entries_map_at(self.tools@, i as int);
                }
                Some(&self.tools[i])
            },
            None => None,
        }
    }

    /// Registers `manifest`, replacing any tool of the same name, and hands back
    /// a copy of it.
    pub fn add(&mut self, manifest: ToolManifest) -> (r: ToolManifest)
        ensures
            final(self)@ == registry_add(old(self)@, manifest),
            final(self).dir() == old(self).dir(),
            r == manifest,
    {
        proof {
            use_type_invariant(&*self);
        }
        let copy = manifest.duplicate();
        let mut tools: Vec<ToolManifest> = Vec::new();
        std::mem::swap(&mut tools, &mut self.tools);
        let ghost s = tools@;
        let (p, same) = insertion_point(&tools, manifest.name.as_str());
        if same {
            proof {
                lemma_replace(s, p as int, manifest);
            }
            tools.set(p, manifest);
        } else {
            proof {
                lemma_insert_new(s, p as int, manifest);
            }
            tools.insert(p, manifest);
        }
        self.tools = tools;
        copy
    }

    /// Unregisters the tool `name`; refused when no such tool is registered.
    pub fn remove(&mut self, name: &str) -> (r: Result<(), ToolError>)
        ensures
            old(self)@.contains_key(name@) ==> r is Ok && final(self)@ == registry_remove(
                old(self)@,
                name@,
            ),
            !old(self)@.contains_key(name@) ==> (r matches Err(ToolError::NotFound(n)) && n@
                == name@) && final(self)@ == old(self)@,
            final(self).dir() == old(self).dir(),
    {
        proof {
            use_type_invariant(&*self);
        }
        match self.position(name) {
            None => Err(ToolError::NotFound(String::from_str(name))),
            Some(i) => {
                let mut tools: Vec<ToolManifest> = Vec::new();
                std::mem::swap(&mut tools, &mut self.tools);
                proof {
                    lemma_remove_at(tools@, i as int);
                }
                let _ = tools.remove(i);
                self.tools = tools;
                Ok(())
            },
        }
    }

    /// All registered manifests, in increasing order of their names.
    pub fn list(&self) -> (r: Vec<&ToolManifest>)
        ensures
            forall|i: int, j: int|
                0 <= i < j < r@.len() ==> text_lt(#[trigger] r@[i].name@, #[trigger] r@[j].name@),
            forall|i: int|
                0 <= i < r@.len() ==> self@.contains_key(#[trigger] r@[i].name@) && self@[r@[i].name@]
                    == *r@[i],
            forall|k: Seq<char>|
                #[trigger] self@.contains_key(k) ==> exists|i: int| 0 <= i < r@.len() && r@[i].name@ == k,
    {
        proof {
            use_type_invariant(self);
        }
        let n = self.tools.len();
        let mut r: Vec<&ToolManifest> = Vec::new();
        let mut i: usize = 0;
        while i < n
            invariant
                n == self.tools@.len(),
                i <= n,
                r@.len() == i,
                forall|j: int| 0 <= j < i ==> *r@[j] == self.tools@[j],
            decreases n - i,
        {
            r.push(&self.tools[i]);
            i = i + 1;
        }
        proof {
            assert forall|i: int| 0 <= i < r@.len() implies self@.contains_key(#[trigger] r@[i].name@)
                && self@[r@[i].name@] == *r@[i] by {
                lemma_entries_map_at(self.tools@, i);
            }
            assert forall|k: Seq<char>| #[trigger] self@.contains_key(k) implies exists|i: int|
                0 <= i < r@.len() && r@[i].name@ == k by {
                let i = choose|i: int| 0 <= i < self.tools@.len() && #[trigger] self.tools@[i].name@ == k;
                assert(r@[i].name@ == k);
            }
        }
        r
    }

    /// Replaces the registered tools by the manifests `manifests`, loaded in
    /// order, so that a later manifest replaces an earlier one of the same name.
    pub fn load_all(&mut self, manifests: Vec<ToolManifest>)
        ensures
            final(self)@ == registry_of(manifests@),
            final(self).dir() == old(self).dir(),
    {
        self.tools = Vec::new();
        assert(self@ =~= Map::<Seq<char>, ToolManifest>::empty());
        let n = manifests.len();
        let mut i: usize = 0;
        while i < n
            invariant
                n == manifests@.len(),
                i <= n,
                self@ == registry_of(manifests@.take(i as int)),
                self.dir() == old(self).dir(),
            decreases n - i,
        {
            let m = manifests[i].duplicate();
            let _ = self.add(m);
            assert(manifests@.take(i + 1).drop_last() =~= manifests@.take(i as int));
            i = i + 1;
        }
        assert(manifests@.take(n as int) =~= manifests@);
    }

    /// The file that holds the manifest of the tool `name`.
    pub fn manifest_path(&self, name: &str) -> (r: Vec<u8>)
        ensures
            r@ == joined_path(self.dir(), text_bytes(name@ + ".toml"@)),
    {
        let mut file_name = String::from_str(name);
        file_name.append(".toml");
        join_path(self.tools_dir.as_slice(), file_name.as_str().as_bytes())
    }

    /// Plans the call of the tool `name`: refused when no such tool is
    /// registered, when it is an MCP tool, or when an HTTP tool has no base URL.
    pub fn plan_invocation(&self, name: &str) -> (r: Result<HttpCall, ToolError>)
        ensures
            !self@.contains_key(name@) ==> (r matches Err(ToolError::NotFound(n)) && n@ == name@),
            self@.contains_key(name@) ==> ({
                let t = self@[name@];
                &&& t.kind == ToolKind::Mcp ==> (r matches Err(ToolError::McpNotImplemented(n))
                    && n@ == t.name@)
                &&& t.kind == ToolKind::Http && t.base_url is None ==> (r matches Err(
                    ToolError::MissingBaseUrl(n),
                ) && n@ == t.name@)
                &&& t.kind == ToolKind::Http && t.base_url is Some ==> (r matches Ok(c) && c.url@
                    == url_of(t.base_url->Some_0@, t.path) && c.method == method_of(t.method)
                    && c.timeout_secs == t.timeout_secs)
            }),
    {
        let tool = match self.get(name) {
            Some(t) => t,
            None => {
                return Err(ToolError::NotFound(String::from_str(name)));
            },
        };
        match tool.kind {
            ToolKind::Mcp => Err(ToolError::McpNotImplemented(tool.name.clone())),
            ToolKind::Http => {
                let base = match &tool.base_url {
                    Some(b) => b,
                    None => {
                        return Err(ToolError::MissingBaseUrl(tool.name.clone()));
                    },
                };
                let mut url = trim_trailing_slashes(base.as_str());
                match &tool.path {
                    Some(p) => url.append(p.as_str()),
                    None => {},
                }
                proof {
                    if tool.path is None {
                        assert(url@ =~= url_of(base@, tool.path));
                    }
                }
                Ok(HttpCall { url, method: decide_method(&tool.method), timeout_secs: tool.timeout_secs })
            },
        }
    }
}

} // verus!
