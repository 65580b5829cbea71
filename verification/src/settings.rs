//! Application settings: the text form in which they are stored, the
//! defaults that fill in missing or unreadable values, and the round trip
//! from settings to stored rows and back.
use vstd::prelude::*;
use crate::text::str_eq;

verus! {

/// The numeric value of a string of decimal digits.
pub open spec fn digits_value(s: Seq<char>) -> int
    decreases s.len(),
{
    if s.len() == 0 {
        0
    } else {
        digits_value(s.drop_last()) * 10 + (s.last() as int - '0' as int)
    }
}

/// Every character of `s` is a decimal digit.
pub open spec fn all_digits(s: Seq<char>) -> bool {
    forall|i: int| 0 <= i < s.len() ==> '0' <= #[trigger] s[i] <= '9'
}

/// What `str::parse::<u32>` gives for `s`: an optional `+` followed by at
/// least one decimal digit, with a value that fits in a `u32`.
pub open spec fn parsed_u32(s: Seq<char>) -> Option<u32> {
    let d = if s.len() > 0 && s[0] == '+' {
        s.drop_first()
    } else {
        s
    };
    if d.len() > 0 && all_digits(d) && digits_value(d) <= u32::MAX {
        Some(digits_value(d) as u32)
    } else {
        None
    }
}

/// What `str::parse::<bool>` gives for `s`.
pub open spec fn parsed_bool(s: Seq<char>) -> Option<bool> {
    if s == "true"@ {
        Some(true)
    } else if s == "false"@ {
        Some(false)
    } else {
        None
    }
}

/// The decimal digit for `d < 10`.
pub open spec fn digit_char(d: int) -> char {
    ('0' as int + d) as char
}

/// The decimal text of `n`, as `u32::to_string` writes it.
pub open spec fn decimal(n: nat) -> Seq<char>
    decreases n,
{
    if n < 10 {
        seq![digit_char(n as int)]
    } else {
        decimal(n / 10).push(digit_char((n % 10) as int))
    }
}

/// The text of a boolean, as `bool::to_string` writes it.
pub open spec fn bool_text(b: bool) -> Seq<char> {
    if b {
        "true"@
    } else {
        "false"@
    }
}

proof fn lemma_digits_prefix(s: Seq<char>, i: int)
    requires
        0 <= i <= s.len(),
        all_digits(s),
    ensures
        digits_value(s.take(i)) <= digits_value(s),
        digits_value(s.take(i)) >= 0,
    decreases s.len() - i,
{
    if i == s.len() {
        assert(s.take(i) =~= s);
        lemma_digits_nonneg(s);
    } else {
        let t = s.drop_last();
        assert(all_digits(t)) by {
            assert forall|k: int| 0 <= k < t.len() implies '0' <= #[trigger] t[k] <= '9' by {
                assert(t[k] == s[k]);
            }
        }
        assert(s.take(i) =~= t.take(i));
        lemma_digits_prefix(t, i);
        lemma_digits_nonneg(t);
        assert('0' <= s[s.len() - 1] <= '9');
    }
}

proof fn lemma_digits_nonneg(s: Seq<char>)
    requires
        all_digits(s),
    ensures
        digits_value(s) >= 0,
    decreases s.len(),
{
    if s.len() > 0 {
        let t = s.drop_last();
        assert(all_digits(t)) by {
            assert forall|k: int| 0 <= k < t.len() implies '0' <= #[trigger] t[k] <= '9' by {
                assert(t[k] == s[k]);
            }
        }
        lemma_digits_nonneg(t);
        assert('0' <= s[s.len() - 1] <= '9');
    }
}

/// Parses a stored number the way `str::parse::<u32>` does.
pub fn parse_u32(text: &str) -> (r: Option<u32>)
    ensures
        r == parsed_u32(text@),
{
    let s = crate::text::chars_of(text);
    let start: usize = if s.len() > 0 && s[0] == '+' {
        1
    } else {
        0
    };
    let ghost d = if s@.len() > 0 && s@[0] == '+' {
        s@.drop_first()
    } else {
        s@
    };
    assert(d =~= s@.skip(start as int));
    if start == s.len() {
        return None;
    }
    let mut value: u64 = 0;
    let mut i: usize = start;
    while i < s.len()
        invariant
            s@ == text@,
            start <= i <= s@.len(),
            d == (if s@.len() > 0 && s@[0] == '+' {
                s@.drop_first()
            } else {
                s@
            }),
            d == s@.skip(start as int),
            d.len() > 0,
            all_digits(d.take(i - start)),
            value as int == digits_value(d.take(i - start)),
            value <= u32::MAX,
        decreases s@.len() - i,
    {
        let c = s[i];
        let ghost p = d.take(i - start + 1);
        assert(p.drop_last() =~= d.take(i - start));
        assert(p.last() == c);
        if c < '0' || c > '9' {
            assert(!all_digits(d)) by {
                assert(d[i - start] == c);
            }
            return None;
        }
        let digit = (c as u32 - '0' as u32) as u64;
        assert(digit == p.last() as int - '0' as int);
        value = value * 10 + digit;
        assert(value as int == digits_value(p));
        assert(all_digits(p)) by {
            assert forall|k: int| 0 <= k < p.len() implies '0' <= #[trigger] p[k] <= '9' by {
                if k < p.len() - 1 {
                    assert(p[k] == d.take(i - start)[k]);
                }
            }
        }
        if value > u32::MAX as u64 {
            proof {
                if all_digits(d) {
                    lemma_digits_prefix(d, i - start + 1);
                }
            }
            return None;
        }
        i = i + 1;
    }
    assert(d.take(i - start) =~= d);
    Some(value as u32)
}

/// Parses a stored flag the way `str::parse::<bool>` does.
pub fn parse_bool(text: &str) -> (r: Option<bool>)
    ensures
        r == parsed_bool(text@),
{
    if str_eq(text, "true") {
        Some(true)
    } else if str_eq(text, "false") {
        Some(false)
    } else {
        None
    }
}

/// The decimal digit character for `d`.
fn digit(d: u32) -> (c: char)
    requires
        d < 10,
    ensures
        c == digit_char(d as int),
{
    if d == 0 { '0' } else if d == 1 { '1' } else if d == 2 { '2' } else if d == 3 { '3' }
    else if d == 4 { '4' } else if d == 5 { '5' } else if d == 6 { '6' } else if d == 7 { '7' }
    else if d == 8 { '8' } else { '9' }
}

/// The decimal text of a number, as `u32::to_string` writes it.
pub fn u32_text(n: u32) -> (r: String)
    ensures
        r@ == decimal(n as nat),
    decreases n,
{
    if n < 10 {
        let mut r = String::new();
        r.push(digit(n));
        assert(r@ =~= decimal(n as nat));
        r
    } else {
        let mut r = u32_text(n / 10);
        r.push(digit(n % 10));
        r
    }
}

/// The text of a flag, as `bool::to_string` writes it.
pub fn bool_to_text(b: bool) -> (r: String)
    ensures
        r@ == bool_text(b),
{
    if b {
        "true".to_owned()
    } else {
        "false".to_owned()
    }
}

proof fn lemma_decimal_digits(n: nat)
    ensures
        all_digits(decimal(n)),
        digits_value(decimal(n)) == n,
        decimal(n).len() > 0,
        decimal(n)[0] != '+',
    decreases n,
{
    if n >= 10 {
        lemma_decimal_digits(n / 10);
        let t = decimal(n / 10);
        let s = t.push(digit_char((n % 10) as int));
        assert(s.drop_last() =~= t);
        assert forall|k: int| 0 <= k < s.len() implies '0' <= #[trigger] s[k] <= '9' by {
            if k < t.len() {
                assert(s[k] == t[k]);
            }
        }
        assert(s[0] == t[0]);
        assert(digit_char((n % 10) as int) as int == '0' as int + (n % 10));
        assert(n == (n / 10) * 10 + n % 10) by (nonlinear_arith);
        assert(decimal(n) == s);
        assert(s.last() == digit_char((n % 10) as int));
        assert(digits_value(s) == digits_value(t) * 10 + (s.last() as int - '0' as int));
        assert(digits_value(t) == n / 10);
    } else {
        let s = decimal(n);
        assert(s.drop_last() =~= Seq::<char>::empty());
        assert(digit_char(n as int) as int == '0' as int + n);
        assert(digits_value(s.drop_last()) == 0);
        assert(digits_value(s) == digits_value(s.drop_last()) * 10 + (s.last() as int - '0' as int));
    }
}

/// Reading back the text of a number gives the number.
pub proof fn lemma_u32_text_round_trip(n: u32)
    ensures
        parsed_u32(decimal(n as nat)) == Some(n),
{
    lemma_decimal_digits(n as nat);
}

/// Reading back the text of a flag gives the flag.
pub proof fn lemma_bool_text_round_trip(b: bool)
    ensures
        parsed_bool(bool_text(b)) == Some(b),
{
    reveal_strlit("true");
    reveal_strlit("false");
    assert("true"@.len() == 4);
    assert("false"@.len() == 5);
}


/// The settings other than the sampling temperature.
#[derive(Debug, Clone, PartialEq, Eq)]
pub struct SettingsValues {
    pub api_base_url: String,
    pub api_key: String,
    pub default_model: String,
    pub max_tokens: u32,
    pub context_window_size: u32,
    pub context_messages_limit: u32,
    pub memory_enabled: bool,
    pub sidecar_model: String,
    pub embedding_model: String,
}

/// The view of the settings.
pub struct SettingsView {
    pub api_base_url: Seq<char>,
    pub api_key: Seq<char>,
    pub default_model: Seq<char>,
    pub max_tokens: u32,
    pub context_window_size: u32,
    pub context_messages_limit: u32,
    pub memory_enabled: bool,
    pub sidecar_model: Seq<char>,
    pub embedding_model: Seq<char>,
}

impl View for SettingsValues {
    type V = SettingsView;

    open spec fn view(&self) -> SettingsView {
        SettingsView {
            api_base_url: self.api_base_url@,
            api_key: self.api_key@,
            default_model: self.default_model@,
            max_tokens: self.max_tokens,
            context_window_size: self.context_window_size,
            context_messages_limit: self.context_messages_limit,
            memory_enabled: self.memory_enabled,
            sidecar_model: self.sidecar_model@,
            embedding_model: self.embedding_model@,
        }
    }
}

/// A stored setting: its key and its text.
pub type SettingRow = (String, String);

/// The views of stored settings.
pub open spec fn row_views(rows: Seq<SettingRow>) -> Seq<(Seq<char>, Seq<char>)> {
    rows.map_values(|r: SettingRow| (r.0@, r.1@))
}

/// The settings table after writing `rows` in order into `table`, a later
/// row replacing an earlier one with the same key.
pub open spec fn table_after(table: Map<Seq<char>, Seq<char>>, rows: Seq<(Seq<char>, Seq<char>)>) -> Map<
    Seq<char>,
    Seq<char>,
>
    decreases rows.len(),
{
    if rows.len() == 0 {
        table
    } else {
        table_after(table, rows.drop_last()).insert(rows.last().0, rows.last().1)
    }
}

/// A text setting: the stored text, else `default`.
pub open spec fn text_setting(t: Map<Seq<char>, Seq<char>>, key: Seq<char>, default: Seq<char>) -> Seq<
    char,
> {
    if t.contains_key(key) {
        t[key]
    } else {
        default
    }
}

/// A number setting: the stored number when it parses, else `default`.
pub open spec fn u32_setting(t: Map<Seq<char>, Seq<char>>, key: Seq<char>, default: u32) -> u32 {
    if t.contains_key(key) && parsed_u32(t[key]) is Some {
        parsed_u32(t[key])->0
    } else {
        default
    }
}

/// A flag setting: the stored flag when it parses, else `default`.
pub open spec fn bool_setting(t: Map<Seq<char>, Seq<char>>, key: Seq<char>, default: bool) -> bool {
    if t.contains_key(key) && parsed_bool(t[key]) is Some {
        parsed_bool(t[key])->0
    } else {
        default
    }
}

/// The settings read from a settings table, with the defaults for what is
/// missing or unreadable.
pub open spec fn settings_from_table(t: Map<Seq<char>, Seq<char>>) -> SettingsView {
    SettingsView {
        api_base_url: text_setting(t, "api_base_url"@, "https://api.openai.com/v1"@),
        api_key: text_setting(t, "api_key"@, ""@),
        default_model: text_setting(t, "default_model"@, "gpt-4o-mini"@),
        max_tokens: u32_setting(t, "max_tokens"@, 1024),
        context_window_size: u32_setting(t, "context_window_size"@, 4096),
        context_messages_limit: u32_setting(t, "context_messages_limit"@, 50),
        memory_enabled: bool_setting(t, "memory_enabled"@, true),
        sidecar_model: text_setting(t, "sidecar_model"@, "gemma2:2b"@),
        embedding_model: text_setting(t, "embedding_model"@, "all-minilm"@),
    }
}

/// The rows that store settings `v`, in the order they are written.
pub open spec fn encoded_rows(v: SettingsView) -> Seq<(Seq<char>, Seq<char>)> {
    seq![
        ("api_base_url"@, v.api_base_url),
        ("api_key"@, v.api_key),
        ("default_model"@, v.default_model),
        ("max_tokens"@, decimal(v.max_tokens as nat)),
        ("context_window_size"@, decimal(v.context_window_size as nat)),
        ("context_messages_limit"@, decimal(v.context_messages_limit as nat)),
        ("memory_enabled"@, bool_text(v.memory_enabled)),
        ("sidecar_model"@, v.sidecar_model),
        ("embedding_model"@, v.embedding_model),
    ]
}

proof fn lemma_table_after_unchanged(
    t: Map<Seq<char>, Seq<char>>,
    rows: Seq<(Seq<char>, Seq<char>)>,
    i: int,
    key: Seq<char>,
)
    requires
        0 <= i <= rows.len(),
        forall|j: int| i <= j < rows.len() ==> #[trigger] rows[j].0 != key,
    ensures
        table_after(t, rows).contains_key(key) == table_after(t, rows.take(i)).contains_key(key),
        table_after(t, rows).contains_key(key) ==> table_after(t, rows)[key] == table_after(
            t,
            rows.take(i),
        )[key],
    decreases rows.len() - i,
{
    if i < rows.len() {
        let r = rows.drop_last();
        assert(rows.last() == rows[rows.len() - 1]);
        assert(rows.take(i) =~= r.take(i));
        assert forall|j: int| i <= j < r.len() implies #[trigger] r[j].0 != key by {
            assert(r[j] == rows[j]);
        }
        lemma_table_after_unchanged(t, r, i, key);
    } else {
        assert(rows.take(i) =~= rows);
    }
}

/// The text stored under `key` in the settings table made of `rows`.
pub fn lookup_setting(rows: &[SettingRow], key: &str) -> (r: Option<String>)
    ensures
        ({
            let t = table_after(Map::empty(), row_views(rows@));
            match r {
                Some(v) => t.contains_key(key@) && t[key@] == v@,
                None => !t.contains_key(key@),
            }
        }),
{
    let ghost rv = row_views(rows@);
    let mut i: usize = rows.len();
    while i > 0
        invariant
            i <= rows@.len(),
            rv == row_views(rows@),
            forall|j: int| i <= j < rv.len() ==> #[trigger] rv[j].0 != key@,
        decreases i,
    {
        if str_eq(rows[i - 1].0.as_str(), key) {
            proof {
                lemma_table_after_unchanged(Map::empty(), rv, i as int, key@);
                let p = rv.take(i as int);
                assert(p.drop_last() =~= rv.take(i - 1));
                assert(p.last() == rv[i - 1]);
            }
            return Some(rows[i - 1].1.clone());
        }
        i = i - 1;
    }
    proof {
        lemma_table_after_unchanged(Map::empty(), rv, 0, key@);
        assert(rv.take(0) =~= Seq::<(Seq<char>, Seq<char>)>::empty());
    }
    None
}

/// A text setting read from `rows`, else `default`.
fn read_text(rows: &[SettingRow], key: &str, default: &str) -> (r: String)
    ensures
        r@ == text_setting(table_after(Map::empty(), row_views(rows@)), key@, default@),
{
    match lookup_setting(rows, key) {
        Some(v) => v,
        None => default.to_owned(),
    }
}

/// A number setting read from `rows`, else `default`.
fn read_u32(rows: &[SettingRow], key: &str, default: u32) -> (r: u32)
    ensures
        r == u32_setting(table_after(Map::empty(), row_views(rows@)), key@, default),
{
    match lookup_setting(rows, key) {
        Some(v) => match parse_u32(v.as_str()) {
            Some(n) => n,
            None => default,
        },
        None => default,
    }
}

/// A flag setting read from `rows`, else `default`.
fn read_bool(rows: &[SettingRow], key: &str, default: bool) -> (r: bool)
    ensures
        r == bool_setting(table_after(Map::empty(), row_views(rows@)), key@, default),
{
    match lookup_setting(rows, key) {
        Some(v) => match parse_bool(v.as_str()) {
            Some(b) => b,
            None => default,
        },
        None => default,
    }
}

/// The settings held by the stored rows. A missing or unreadable value
/// takes its default: API address `https://api.openai.com/v1`, an empty API
/// key, model `gpt-4o-mini`, 1024 response tokens, a 4096-token context
/// window, 50 context messages, memory enabled, sidecar model `gemma2:2b`
/// and embedding model `all-minilm`.
pub fn resolve_settings(rows: &[SettingRow]) -> (r: SettingsValues)
    ensures
        r@ == settings_from_table(table_after(Map::empty(), row_views(rows@))),
{
    SettingsValues {
        api_base_url: read_text(rows, "api_base_url", "https://api.openai.com/v1"),
        api_key: read_text(rows, "api_key", ""),
        default_model: read_text(rows, "default_model", "gpt-4o-mini"),
        max_tokens: read_u32(rows, "max_tokens", 1024),
        context_window_size: read_u32(rows, "context_window_size", 4096),
        context_messages_limit: read_u32(rows, "context_messages_limit", 50),
        memory_enabled: read_bool(rows, "memory_enabled", true),
        sidecar_model: read_text(rows, "sidecar_model", "gemma2:2b"),
        embedding_model: read_text(rows, "embedding_model", "all-minilm"),
    }
}

/// A stored row.
fn row(key: &str, value: String) -> (r: SettingRow)
    ensures
        r.0@ == key@,
        r.1@ == value@,
{
    (key.to_owned(), value)
}

/// The rows that store the settings, in the order they are written.
pub fn settings_rows(v: &SettingsValues) -> (r: Vec<SettingRow>)
    ensures
        row_views(r@) == encoded_rows(v@),
{
    let mut r: Vec<SettingRow> = Vec::new();
    r.push(row("api_base_url", v.api_base_url.clone()));
    r.push(row("api_key", v.api_key.clone()));
    r.push(row("default_model", v.default_model.clone()));
    r.push(row("max_tokens", u32_text(v.max_tokens)));
    r.push(row("context_window_size", u32_text(v.context_window_size)));
    r.push(row("context_messages_limit", u32_text(v.context_messages_limit)));
    r.push(row("memory_enabled", bool_to_text(v.memory_enabled)));
    r.push(row("sidecar_model", v.sidecar_model.clone()));
    r.push(row("embedding_model", v.embedding_model.clone()));
    assert(row_views(r@) =~= encoded_rows(v@));
    r
}


/// Settings written to a settings table read back as the same settings,
/// whatever the table held before.
pub proof fn law_settings_read_back_what_was_written(v: SettingsView, t: Map<Seq<char>, Seq<char>>)
    ensures
        settings_from_table(table_after(t, encoded_rows(v))) == v,
{
    reveal_strlit("api_base_url");
    reveal_strlit("api_key");
    reveal_strlit("default_model");
    reveal_strlit("max_tokens");
    reveal_strlit("context_window_size");
    reveal_strlit("context_messages_limit");
    reveal_strlit("memory_enabled");
    reveal_strlit("sidecar_model");
    reveal_strlit("embedding_model");
    lemma_u32_text_round_trip(v.max_tokens);
    lemma_u32_text_round_trip(v.context_window_size);
    lemma_u32_text_round_trip(v.context_messages_limit);
    lemma_bool_text_round_trip(v.memory_enabled);
    let rows = encoded_rows(v);
    reveal_with_fuel(table_after, 10);
    assert(rows.drop_last().drop_last().drop_last().drop_last().drop_last().drop_last().drop_last().drop_last().drop_last() =~= Seq::<(Seq<char>, Seq<char>)>::empty());
    let m = t.insert("api_base_url"@, v.api_base_url).insert("api_key"@, v.api_key).insert(
        "default_model"@,
        v.default_model,
    ).insert("max_tokens"@, decimal(v.max_tokens as nat)).insert(
        "context_window_size"@,
        decimal(v.context_window_size as nat),
    ).insert("context_messages_limit"@, decimal(v.context_messages_limit as nat)).insert(
        "memory_enabled"@,
        bool_text(v.memory_enabled),
    ).insert("sidecar_model"@, v.sidecar_model).insert("embedding_model"@, v.embedding_model);
    assert(table_after(t, rows) == m);
    assert("api_base_url"@[0] != "api_key"@[4]);
    assert("default_model"@[0] != "sidecar_model"@[0]);
    assert("max_tokens"@.len() == 10 && "context_window_size"@.len() == 19);
    assert("context_messages_limit"@.len() == 22 && "memory_enabled"@.len() == 14);
    assert("sidecar_model"@.len() == 13 && "embedding_model"@.len() == 15);
    assert("max_tokens"@ != "context_window_size"@);
    assert("max_tokens"@ != "context_messages_limit"@);
    assert("context_window_size"@ != "context_messages_limit"@);
    let r = settings_from_table(m);
    assert(r.api_base_url == v.api_base_url);
    assert(r.api_key == v.api_key);
    assert(r.default_model == v.default_model);
    assert(r.max_tokens == v.max_tokens);
    assert(r.context_window_size == v.context_window_size);
    assert(r.context_messages_limit == v.context_messages_limit);
    assert(r.memory_enabled == v.memory_enabled);
    assert(r.sidecar_model == v.sidecar_model);
    assert(r.embedding_model == v.embedding_model);
}

} // verus!
