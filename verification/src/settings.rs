//! Settling the configuration: the environment overrides the configuration
//! file, which overrides the defaults. Environment entries may also come from a
//! `.env` file, which the process environment overrides in turn.
use vstd::prelude::*;

use crate::config::{AppConfig, ConfigError, ProviderConfig, ProviderKind};
use crate::text::same_text;

verus! {

/// Configuration values given by the environment, each optional.
#[derive(Debug, Clone)]
pub struct ConfigOverrides {
    /// `NANOAIOS_API_HOST`
    pub api_host: Option<String>,
    /// `NANOAIOS_API_PORT`
    pub api_port: Option<String>,
    /// `NANOAIOS_PROVIDER_KIND`
    pub provider_kind: Option<String>,
    /// `NANOAIOS_PROVIDER_MODEL`
    pub provider_model: Option<String>,
    /// `NANOAIOS_PROVIDER_BASE_URL`
    pub provider_base_url: Option<String>,
}

/// Whether `c` is a decimal digit.
pub open spec fn is_digit(c: char) -> bool {
    '0' <= c <= '9'
}

/// The number that the decimal digits `d` write.
pub open spec fn digits_value(d: Seq<char>) -> int
    decreases d.len(),
{
    if d.len() == 0 {
        0
    } else {
        digits_value(d.drop_last()) * 10 + (d.last() as int - '0' as int)
    }
}

/// The digits of a number text: the text without one leading `+`.
pub open spec fn number_digits(s: Seq<char>) -> Seq<char> {
    if s.len() > 0 && s[0] == '+' {
        s.drop_first()
    } else {
        s
    }
}

/// Whether `s` writes a port number: an optional `+`, then one or more decimal
/// digits whose value is at most 65535 (as unsigned 16-bit numbers are parsed).
pub open spec fn is_port_text(s: Seq<char>) -> bool {
    let d = number_digits(s);
    &&& d.len() > 0
    &&& forall|i: int| 0 <= i < d.len() ==> is_digit(#[trigger] d[i])
    &&& digits_value(d) <= 65535
}

/// A digit string has a value of at least zero.
proof fn lemma_digits_value_nonnegative(d: Seq<char>)
    requires
        forall|j: int| 0 <= j < d.len() ==> is_digit(#[trigger] d[j]),
    ensures
        0 <= digits_value(d),
    decreases d.len(),
{
    if d.len() > 0 {
        let init = d.drop_last();
        assert forall|j: int| 0 <= j < init.len() implies is_digit(#[trigger] init[j]) by {
            assert(init[j] == d[j]);
        }
        lemma_digits_value_nonnegative(init);
        assert(is_digit(d[d.len() - 1]));
    }
}

/// A digit string is worth at least each of its prefixes.
proof fn lemma_digits_value_prefix(d: Seq<char>, i: int)
    requires
        0 <= i <= d.len(),
        forall|j: int| 0 <= j < d.len() ==> is_digit(#[trigger] d[j]),
    ensures
        digits_value(d.take(i)) <= digits_value(d),
    decreases d.len(),
{
    if i == d.len() {
        assert(d.take(i) =~= d);
    } else {
        let init = d.drop_last();
        assert forall|j: int| 0 <= j < init.len() implies is_digit(#[trigger] init[j]) by {
            assert(init[j] == d[j]);
        }
        assert(init.take(i) =~= d.take(i));
        lemma_digits_value_prefix(init, i);
        lemma_digits_value_nonnegative(init);
        assert(is_digit(d[d.len() - 1]));
    }
}

/// Reads a port number, as an unsigned 16-bit number is read from text.
pub fn parse_port(s: &str) -> (r: Option<u16>)
    ensures
        r is Some <==> is_port_text(s@),
        r matches Some(p) ==> p == digits_value(number_digits(s@)),
{
    let n = s.unicode_len();
    let start: usize = if n > 0 && s.get_char(0) == '+' { 1 } else { 0 };
    let ghost d = number_digits(s@);
    assert(d =~= s@.subrange(start as int, n as int));
    if start >= n {
        return None;
    }
    let mut value: u32 = 0;
    let mut i: usize = start;
    while i < n
        invariant
            start <= i <= n,
            n == s@.len(),
            d == s@.subrange(start as int, n as int),
            d == number_digits(s@),
            forall|j: int| 0 <= j < i - start ==> is_digit(#[trigger] d[j]),
            value == digits_value(d.take(i - start)),
            value <= 65535,
        decreases n - i,
    {
        let c = s.get_char(i);
        if !('0' <= c && c <= '9') {
            assert(!is_digit(d[i - start]));
            assert(!is_port_text(s@));
            return None;
        }
        let digit = (c as u32) - ('0' as u32);
        assert(d.take(i - start + 1).drop_last() =~= d.take(i - start));
        let next = value * 10 + digit;
        assert(digits_value(d.take(i - start + 1)) == next);
        if next > 65535 {
            proof {
                if forall|j: int| 0 <= j < d.len() ==> is_digit(#[trigger] d[j]) {
                    lemma_digits_value_prefix(d, i - start + 1);
                }
            }
            assert(!is_port_text(s@));
            return None;
        }
        value = next;
        i = i + 1;
    }
    assert(d.take(n - start) =~= d);
    Some(value as u16)
}

/// The provider kind a text names: `mock` or `openai_compatible`.
pub open spec fn kind_named(s: Seq<char>) -> Option<ProviderKind> {
    if s == "mock"@ {
        Some(ProviderKind::Mock)
    } else if s == "openai_compatible"@ {
        Some(ProviderKind::OpenaiCompatible)
    } else {
        None
    }
}

/// Reads a provider kind by its name.
pub fn parse_provider_kind(s: &str) -> (r: Option<ProviderKind>)
    ensures
        r == kind_named(s@),
{
    if same_text(s, "mock") {
        Some(ProviderKind::Mock)
    } else if same_text(s, "openai_compatible") {
        Some(ProviderKind::OpenaiCompatible)
    } else {
        None
    }
}

/// An optional value, replaced by the override when there is one.
pub open spec fn or_override<T>(value: T, o: Option<T>) -> T {
    match o {
        Some(v) => v,
        None => value,
    }
}

/// `config` with the valid overrides `o` applied.
pub open spec fn overridden(config: AppConfig, o: ConfigOverrides) -> AppConfig {
    AppConfig {
        node_name: config.node_name,
        api_host: or_override(config.api_host, o.api_host),
        api_port: match o.api_port {
            Some(p) => digits_value(number_digits(p@)) as u16,
            None => config.api_port,
        },
        provider: ProviderConfig {
            kind: match o.provider_kind {
                Some(k) => kind_named(k@)->Some_0,
                None => config.provider.kind,
            },
            model: or_override(config.provider.model, o.provider_model),
            base_url: match o.provider_base_url {
                Some(u) => Some(u),
                None => config.provider.base_url,
            },
            api_key_env: config.provider.api_key_env,
        },
        memory: config.memory,
    }
}

/// Each override takes effect on its own field, whatever the other overrides: a
/// given host, model or base URL replaces the configured one, a given port
/// number sets the port to the number it writes, a given provider kind `mock`
/// or `openai_compatible` sets that kind; a field whose override is absent keeps
/// its configured value, and the node name, the API key variable and the memory
/// settings are never overridden.
pub proof fn lemma_overrides_take_effect(config: AppConfig, o: ConfigOverrides)
    ensures
        ({
            let r = overridden(config, o);
            &&& o.api_host matches Some(h) ==> r.api_host == h
            &&& o.api_host is None ==> r.api_host == config.api_host
            &&& o.api_port matches Some(p) ==> (is_port_text(p@) ==> r.api_port == digits_value(
                number_digits(p@),
            ))
            &&& o.api_port is None ==> r.api_port == config.api_port
            &&& o.provider_kind matches Some(k) ==> (k@ == "mock"@ ==> r.provider.kind
                == ProviderKind::Mock)
            &&& o.provider_kind matches Some(k) ==> (k@ == "openai_compatible"@ ==> r.provider.kind
                == ProviderKind::OpenaiCompatible)
            &&& o.provider_kind is None ==> r.provider.kind == config.provider.kind
            &&& o.provider_model matches Some(m) ==> r.provider.model == m
            &&& o.provider_model is None ==> r.provider.model == config.provider.model
            &&& o.provider_base_url matches Some(u) ==> r.provider.base_url == Some(u)
            &&& o.provider_base_url is None ==> r.provider.base_url == config.provider.base_url
            &&& r.node_name == config.node_name
            &&& r.provider.api_key_env == config.provider.api_key_env
            &&& r.memory == config.memory
        }),
{
    reveal_strlit("mock");
    reveal_strlit("openai_compatible");
    assert("openai_compatible"@.len() != "mock"@.len());
    match o.api_port {
        Some(p) => {
            if is_port_text(p@) {
                lemma_digits_value_nonnegative(number_digits(p@));
            }
        },
        None => {},
    }
}

/// The port override is given and is not a port number.
pub open spec fn port_refused(o: ConfigOverrides) -> bool {
    o.api_port matches Some(p) && !is_port_text(p@)
}

/// The provider kind override is given and names no provider kind.
pub open spec fn kind_refused(o: ConfigOverrides) -> bool {
    o.provider_kind matches Some(k) && kind_named(k@) is None
}

/// Applies the environment's overrides to `config`; refused when the port or the
/// provider kind given is not valid, the port being checked first.
pub fn apply_overrides(config: AppConfig, o: &ConfigOverrides) -> (r: Result<AppConfig, ConfigError>)
    ensures
        port_refused(*o) ==> r == Err::<AppConfig, ConfigError>(
            ConfigError::InvalidPort(o.api_port->Some_0),
        ),
        !port_refused(*o) && kind_refused(*o) ==> r == Err::<AppConfig, ConfigError>(
            ConfigError::InvalidProviderKind(o.provider_kind->Some_0),
        ),
        !port_refused(*o) && !kind_refused(*o) ==> r == Ok::<AppConfig, ConfigError>(
            overridden(config, *o),
        ),
{
    let mut c = config;
    match &o.api_port {
        Some(p) => match parse_port(p.as_str()) {
            Some(port) => {
                c.api_port = port;
            },
            None => {
                return Err(ConfigError::InvalidPort(p.clone()));
            },
        },
        None => {},
    }
    match &o.provider_kind {
        Some(k) => match parse_provider_kind(k.as_str()) {
            Some(kind) => {
                c.provider.kind = kind;
            },
            None => {
                return Err(ConfigError::InvalidProviderKind(k.clone()));
            },
        },
        None => {},
    }
    match &o.api_host {
        Some(h) => {
            c.api_host = h.clone();
        },
        None => {},
    }
    match &o.provider_model {
        Some(m) => {
            c.provider.model = m.clone();
        },
        None => {},
    }
    match &o.provider_base_url {
        Some(u) => {
            c.provider.base_url = Some(u.clone());
        },
        None => {},
    }
    Ok(c)
}

/// The value of the last entry of `vars` whose key is `key`.
pub open spec fn last_value(vars: Seq<(String, String)>, key: Seq<char>) -> Option<String>
    decreases vars.len(),
{
    if vars.len() == 0 {
        None
    } else if vars.last().0@ == key {
        Some(vars.last().1)
    } else {
        last_value(vars.drop_last(), key)
    }
}

/// The value of the last entry of `vars` whose key is `key`.
pub fn lookup_last(vars: &Vec<(String, String)>, key: &str) -> (r: Option<String>)
    ensures
        r == last_value(vars@, key@),
{
    let n = vars.len();
    let mut i = n;
    assert(vars@.take(n as int) =~= vars@);
    while i > 0
        invariant
            i <= n,
            n == vars@.len(),
            forall|j: int| i <= j < n ==> (#[trigger] vars@[j]).0@ != key@,
            last_value(vars@, key@) == last_value(vars@.take(i as int), key@),
        decreases i,
    {
        assert(vars@.take(i as int).drop_last() =~= vars@.take(i - 1));
        if same_text(vars[i - 1].0.as_str(), key) {
            return Some(vars[i - 1].1.clone());
        }
        i = i - 1;
    }
    None
}

/// Entries that come later take precedence: looking a name up in `first`
/// followed by `later` finds the value of `later` when `later` has the name, and
/// that of `first` otherwise. So the process environment, listed after the
/// entries of a `.env` file, overrides them.
pub proof fn lemma_later_entries_win(first: Seq<(String, String)>, later: Seq<(String, String)>, key: Seq<char>)
    ensures
        last_value(first + later, key) == match last_value(later, key) {
            Some(v) => Some(v),
            None => last_value(first, key),
        },
    decreases later.len(),
{
    if later.len() == 0 {
        assert(first + later =~= first);
    } else {
        assert((first + later).drop_last() =~= first + later.drop_last());
        assert((first + later).last() == later.last());
        lemma_later_entries_win(first, later.drop_last(), key);
    }
}

/// The overrides that the environment entries `vars` give, a later entry of a
/// name replacing an earlier one.
pub fn overrides_from_vars(vars: &Vec<(String, String)>) -> (r: ConfigOverrides)
    ensures
        r.api_host == last_value(vars@, "NANOAIOS_API_HOST"@),
        r.api_port == last_value(vars@, "NANOAIOS_API_PORT"@),
        r.provider_kind == last_value(vars@, "NANOAIOS_PROVIDER_KIND"@),
        r.provider_model == last_value(vars@, "NANOAIOS_PROVIDER_MODEL"@),
        r.provider_base_url == last_value(vars@, "NANOAIOS_PROVIDER_BASE_URL"@),
{
    ConfigOverrides {
        api_host: lookup_last(vars, "NANOAIOS_API_HOST"),
        api_port: lookup_last(vars, "NANOAIOS_API_PORT"),
        provider_kind: lookup_last(vars, "NANOAIOS_PROVIDER_KIND"),
        provider_model: lookup_last(vars, "NANOAIOS_PROVIDER_MODEL"),
        provider_base_url: lookup_last(vars, "NANOAIOS_PROVIDER_BASE_URL"),
    }
}

/// Whether the defaults stand in for the configuration file: when no file was
/// named and the default file is not there.
pub fn use_default_config(path_given: bool, file_exists: bool) -> (r: bool)
    ensures
        r == (!path_given && !file_exists),
{
    !path_given && !file_exists
}

/// Whether `c` is a blank: a space, a tab or a carriage return.
pub open spec fn is_blank(c: char) -> bool {
    c == ' ' || c == '\t' || c == '\r'
}

/// `s` without its leading blanks.
pub open spec fn trim_start_blanks(s: Seq<char>) -> Seq<char>
    decreases s.len(),
{
    if s.len() > 0 && is_blank(s[0]) {
        trim_start_blanks(s.drop_first())
    } else {
        s
    }
}

/// `s` without its trailing blanks.
pub open spec fn trim_end_blanks(s: Seq<char>) -> Seq<char>
    decreases s.len(),
{
    if s.len() > 0 && is_blank(s.last()) {
        trim_end_blanks(s.drop_last())
    } else {
        s
    }
}

/// `s` without its leading and trailing blanks.
pub open spec fn trim_blanks(s: Seq<char>) -> Seq<char> {
    trim_end_blanks(trim_start_blanks(s))
}

/// Whether `c` is a blank.
fn blank_char(c: char) -> (r: bool)
    ensures
        r == is_blank(c),
{
    c == ' ' || c == '\t' || c == '\r'
}

/// Removes the leading and trailing blanks of `s`.
pub fn trim_blank_text(s: &str) -> (r: String)
    ensures
        r@ == trim_blanks(s@),
{
    let n = s.unicode_len();
    let mut a: usize = 0;
    assert(s@.subrange(0, n as int) =~= s@);
    while a < n && blank_char(s.get_char(a))
        invariant
            a <= n,
            n == s@.len(),
            trim_start_blanks(s@.subrange(a as int, n as int)) == trim_start_blanks(s@),
        decreases n - a,
    {
        assert(s@.subrange(a as int, n as int).drop_first() =~= s@.subrange(a + 1, n as int));
        a = a + 1;
    }
    assert(trim_start_blanks(s@.subrange(a as int, n as int)) == s@.subrange(a as int, n as int));
    let mut b: usize = n;
    while b > a && blank_char(s.get_char(b - 1))
        invariant
            a <= b <= n,
            n == s@.len(),
            trim_end_blanks(s@.subrange(a as int, b as int)) == trim_end_blanks(
                s@.subrange(a as int, n as int),
            ),
        decreases b,
    {
        assert(s@.subrange(a as int, b as int).drop_last() =~= s@.subrange(a as int, b - 1));
        b = b - 1;
    }
    assert(trim_end_blanks(s@.subrange(a as int, b as int)) == s@.subrange(a as int, b as int));
    String::from_str(s.substring_char(a, b))
}

/// `s` without one pair of matching surrounding quotes, single or double.
pub open spec fn unquoted(s: Seq<char>) -> Seq<char> {
    if s.len() >= 2 && ((s[0] == '"' && s.last() == '"') || (s[0] == '\'' && s.last() == '\'')) {
        s.subrange(1, s.len() - 1)
    } else {
        s
    }
}

/// Removes one pair of matching surrounding quotes from `s`.
fn unquote(s: &str) -> (r: String)
    ensures
        r@ == unquoted(s@),
{
    let n = s.unicode_len();
    if n >= 2 {
        let first = s.get_char(0);
        let last = s.get_char(n - 1);
        if (first == '"' && last == '"') || (first == '\'' && last == '\'') {
            return String::from_str(s.substring_char(1, n - 1));
        }
    }
    String::from_str(s)
}

/// `k` is the position of the first `=` of `t`.
pub open spec fn first_equals_at(t: Seq<char>, k: int) -> bool {
    &&& 0 <= k < t.len()
    &&& t[k] == '='
    &&& forall|j: int| 0 <= j < k ==> t[j] != '='
}

/// The entry a line of a `.env` file gives: none for a blank line, a comment
/// (`#` first) or a line without `=` or with an empty name; else the name before
/// the first `=` and the value after it, both without surrounding blanks, the
/// value also without one pair of surrounding quotes.
pub open spec fn entry_of(line: Seq<char>) -> Option<(Seq<char>, Seq<char>)> {
    let t = trim_blanks(line);
    if t.len() == 0 || t[0] == '#' {
        None
    } else if !(exists|k: int| #[trigger] first_equals_at(t, k)) {
        None
    } else {
        let k = choose|k: int| #[trigger] first_equals_at(t, k);
        let key = trim_blanks(t.take(k));
        if key.len() == 0 {
            None
        } else {
            Some((key, unquoted(trim_blanks(t.skip(k + 1)))))
        }
    }
}

/// The value of an entry.
pub open spec fn pair_view(p: (String, String)) -> (Seq<char>, Seq<char>) {
    (p.0@, p.1@)
}

/// Reads one line of a `.env` file.
pub fn parse_env_line(line: &str) -> (r: Option<(String, String)>)
    ensures
        match r {
            Some(p) => entry_of(line@) == Some(pair_view(p)),
            None => entry_of(line@) is None,
        },
{
    let t = trim_blank_text(line);
    let ts = t.as_str();
    let n = ts.unicode_len();
    if n == 0 {
        return None;
    }
    if ts.get_char(0) == '#' {
        return None;
    }
    let mut k: usize = 0;
    while k < n && ts.get_char(k) != '='
        invariant
            k <= n,
            n == ts@.len(),
            forall|j: int| 0 <= j < k ==> ts@[j] != '=',
        decreases n - k,
    {
        k = k + 1;
    }
    if k == n {
        proof {
            if exists|k2: int| #[trigger] first_equals_at(ts@, k2) {
                let k2 = choose|k2: int| #[trigger] first_equals_at(ts@, k2);
                assert(ts@[k2] == '=');
            }
        }
        return None;
    }
    assert(first_equals_at(ts@, k as int));
    proof {
        let k2 = choose|k2: int| #[trigger] first_equals_at(ts@, k2);
        if k2 < k {
            assert(ts@[k2] == '=');
        } else if k < k2 {
            assert(ts@[k as int] == '=');
        }
        assert(k2 == k);
    }
    let before = ts.substring_char(0, k);
    assert(before@ =~= ts@.take(k as int));
    let key = trim_blank_text(before);
    if key.unicode_len() == 0 {
        return None;
    }
    let after = ts.substring_char(k + 1, n);
    assert(after@ =~= ts@.skip(k + 1));
    let raw = trim_blank_text(after);
    let value = unquote(raw.as_str());
    Some((key, value))
}

/// The lines of `s` read so far: the finished lines and the line being read.
pub open spec fn split_state(s: Seq<char>) -> (Seq<Seq<char>>, Seq<char>)
    decreases s.len(),
{
    if s.len() == 0 {
        (Seq::empty(), Seq::empty())
    } else {
        let (done, current) = split_state(s.drop_last());
        if s.last() == '\n' {
            (done.push(current), Seq::empty())
        } else {
            (done, current.push(s.last()))
        }
    }
}

/// The lines of `s`, separated by line feeds.
pub open spec fn lines_of(s: Seq<char>) -> Seq<Seq<char>> {
    split_state(s).0.push(split_state(s).1)
}

/// The entries that the lines `lines` give, in order.
pub open spec fn entries_of_lines(lines: Seq<Seq<char>>) -> Seq<(Seq<char>, Seq<char>)>
    decreases lines.len(),
{
    if lines.len() == 0 {
        Seq::empty()
    } else {
        match entry_of(lines.last()) {
            Some(e) => entries_of_lines(lines.drop_last()).push(e),
            None => entries_of_lines(lines.drop_last()),
        }
    }
}

/// The entries of the `.env` file `content`, in order.
pub open spec fn env_entries(content: Seq<char>) -> Seq<(Seq<char>, Seq<char>)> {
    entries_of_lines(lines_of(content))
}

/// Reads the entries of a `.env` file, line by line.
pub fn parse_env_file(content: &str) -> (r: Vec<(String, String)>)
    ensures
        r@.map_values(|p: (String, String)| pair_view(p)) == env_entries(content@),
{
    let n = content.unicode_len();
    let mut out: Vec<(String, String)> = Vec::new();
    let mut start: usize = 0;
    let mut i: usize = 0;
    let ghost mut done: Seq<Seq<char>> = Seq::empty();
    assert(content@.take(0) =~= Seq::<char>::empty());
    assert(content@.subrange(0, 0) =~= Seq::<char>::empty());
    while i < n
        invariant
            start <= i <= n,
            n == content@.len(),
            split_state(content@.take(i as int)) == (done, content@.subrange(start as int, i as int)),
            out@.map_values(|p: (String, String)| pair_view(p)) == entries_of_lines(done),
        decreases n - i,
    {
        assert(content@.take(i + 1).drop_last() =~= content@.take(i as int));
        assert(content@.take(i + 1).last() == content@[i as int]);
        if content.get_char(i) == '\n' {
            let line = content.substring_char(start, i);
            let ghost before = out@;
            match parse_env_line(line) {
                Some(e) => {
                    out.push(e);
                    assert(out@.map_values(|p: (String, String)| pair_view(p)) =~= before.map_values(
                        |p: (String, String)| pair_view(p),
                    ).push(pair_view(e)));
                },
                None => {},
            }
            proof {
                assert(done.push(line@).drop_last() =~= done);
                done = done.push(line@);
            }
            start = i + 1;
            assert(content@.subrange(start as int, i + 1) =~= Seq::<char>::empty());
        } else {
            assert(content@.subrange(start as int, i as int).push(content@[i as int])
                =~= content@.subrange(start as int, i + 1));
        }
        i = i + 1;
    }
    assert(content@.take(n as int) =~= content@);
    let line = content.substring_char(start, n);
    let ghost before = out@;
    match parse_env_line(line) {
        Some(e) => {
            out.push(e);
            assert(out@.map_values(|p: (String, String)| pair_view(p)) =~= before.map_values(
                |p: (String, String)| pair_view(p),
            ).push(pair_view(e)));
        },
        None => {},
    }
    assert(lines_of(content@) == done.push(line@));
    assert(done.push(line@).drop_last() =~= done);
    out
}

} // verus!
