//! Command-line argument handling of the `highwater` client.
use crate::text::{is_blank, spec_is_blank, str_eq};
use std::collections::VecDeque;
use vstd::prelude::*;

verus! {

/// Why a command line was refused.
#[derive(Debug)]
pub enum CliError {
    /// An option that takes a value came last.
    MissingValue(String),
    /// An option this command does not know.
    UnknownOption(String),
    /// A required option was not given.
    Required(String),
    /// `--address` is blank.
    EmptyAddress,
    /// `--api-key` is empty.
    EmptyApiKey,
}

/// A `CliError` as plain values.
pub enum CliErrorView {
    MissingValue(Seq<char>),
    UnknownOption(Seq<char>),
    Required(Seq<char>),
    EmptyAddress,
    EmptyApiKey,
}

impl View for CliError {
    type V = CliErrorView;

    open spec fn view(&self) -> CliErrorView {
        match self {
            CliError::MissingValue(o) => CliErrorView::MissingValue(o@),
            CliError::UnknownOption(o) => CliErrorView::UnknownOption(o@),
            CliError::Required(o) => CliErrorView::Required(o@),
            CliError::EmptyAddress => CliErrorView::EmptyAddress,
            CliError::EmptyApiKey => CliErrorView::EmptyApiKey,
        }
    }
}

/// The remaining words of a command line, consumed from the front.
pub struct Arguments(VecDeque<String>);

pub open spec fn texts(values: Seq<String>) -> Seq<Seq<char>> {
    values.map_values(|s: String| s@)
}

impl View for Arguments {
    type V = Seq<Seq<char>>;

    closed spec fn view(&self) -> Seq<Seq<char>> {
        texts(self.0@)
    }
}

impl Arguments {
    pub fn new(values: Vec<String>) -> (arguments: Self)
        ensures
            arguments@ == texts(values@),
    {
        let mut queue: VecDeque<String> = VecDeque::new();
        let mut rest = values;
        let ghost all = rest@;
        let mut taken: Vec<String> = Vec::new();
        let mut i: usize = 0;
        while i < rest.len()
            invariant
                rest@ == all,
                i <= all.len(),
                queue@ == all.subrange(0, i as int),
            decreases rest.len() - i,
        {
            queue.push_back(rest[i].clone());
            i = i + 1;
        }
        proof {
            assert(all.subrange(0, all.len() as int) =~= all);
        }
        Arguments(queue)
    }

    /// Takes the next word.
    pub fn next(&mut self) -> (value: Option<String>)
        ensures
            old(self)@.len() == 0 ==> value is None && final(self)@ == old(self)@,
            old(self)@.len() > 0 ==> (value matches Some(v) && v@ == old(self)@[0]) && final(self)@
                == old(self)@.drop_first(),
    {
        let value = self.0.pop_front();
        proof {
            assert(texts(final(self).0@) =~= texts(old(self).0@).drop_first() || old(self).0@.len() == 0);
        }
        value
    }

    /// Takes the value of `option`, which must follow it.
    pub fn required(&mut self, option: &str) -> (r: Result<String, CliError>)
        ensures
            old(self)@.len() == 0 ==> (r matches Err(CliError::MissingValue(o)) && o@ == option@)
                && final(self)@ == old(self)@,
            old(self)@.len() > 0 ==> (r matches Ok(v) && v@ == old(self)@[0]) && final(self)@
                == old(self)@.drop_first(),
    {
        match self.next() {
            Some(value) => Ok(value),
            None => Err(CliError::MissingValue(option.to_owned())),
        }
    }

    pub fn is_empty(&self) -> (empty: bool)
        ensures
            empty == (self@.len() == 0),
    {
        self.0.len() == 0
    }

    /// The remaining words, in order.
    pub fn into_vec(self) -> (values: Vec<String>)
        ensures
            texts(values@) == self@,
    {
        let mut queue = self.0;
        let ghost all = queue@;
        let mut values: Vec<String> = Vec::new();
        while queue.len() > 0
            invariant
                all == values@ + queue@,
            decreases queue@.len(),
        {
            let ghost before = queue@;
            match queue.pop_front() {
                Some(v) => {
                    values.push(v);
                    assert(values@ + queue@ =~= all);
                },
                None => {},
            }
        }
        assert(values@ =~= all);
        values
    }
}

/// Options that every command accepts, and the words left for the command.
pub struct GlobalOptions {
    pub address: String,
    pub api_key: Option<String>,
    pub arguments: Arguments,
}

/// The result of scanning the words for the global options, before validation.
pub open spec fn spec_scan_global(
    words: Seq<Seq<char>>,
    address: Seq<char>,
    api_key: Option<Seq<char>>,
    others: Seq<Seq<char>>,
) -> Result<(Seq<char>, Option<Seq<char>>, Seq<Seq<char>>), CliErrorView>
    decreases words.len(),
{
    if words.len() == 0 {
        Ok((address, api_key, others))
    } else if words[0] == "--address"@ {
        if words.len() < 2 {
            Err(CliErrorView::MissingValue("--address"@))
        } else {
            spec_scan_global(words.subrange(2, words.len() as int), words[1], api_key, others)
        }
    } else if words[0] == "--api-key"@ {
        if words.len() < 2 {
            Err(CliErrorView::MissingValue("--api-key"@))
        } else {
            spec_scan_global(words.subrange(2, words.len() as int), address, Some(words[1]), others)
        }
    } else {
        spec_scan_global(words.drop_first(), address, api_key, others.push(words[0]))
    }
}

pub open spec fn opt_text(o: Option<String>) -> Option<Seq<char>> {
    match o {
        Some(k) => Some(k@),
        None => None,
    }
}

/// `text` without its trailing `/` characters.
pub open spec fn spec_trim_trailing_slashes(text: Seq<char>) -> Seq<char>
    decreases text.len(),
{
    if text.len() > 0 && text.last() == '/' {
        spec_trim_trailing_slashes(text.drop_last())
    } else {
        text
    }
}

/// `str::trim_end_matches('/')`.
pub fn trim_trailing_slashes(text: &str) -> (trimmed: String)
    ensures
        trimmed@ == spec_trim_trailing_slashes(text@),
{
    broadcast use vstd::string::group_string_axioms;

    let mut end = text.unicode_len();
    assert(text@.subrange(0, end as int) =~= text@);
    while end > 0 && text.get_char(end - 1) == '/'
        invariant
            end <= text@.len(),
            spec_trim_trailing_slashes(text@) == spec_trim_trailing_slashes(text@.subrange(0, end as int)),
        decreases end,
    {
        assert(text@.subrange(0, end as int).drop_last() =~= text@.subrange(0, end - 1));
        end = end - 1;
    }
    text.substring_char(0, end).to_owned()
}

/// The global options of a command line, and the words left for the command.
pub open spec fn spec_global(
    words: Seq<Seq<char>>,
    default_address: Seq<char>,
    default_api_key: Option<Seq<char>>,
) -> Result<(Seq<char>, Option<Seq<char>>, Seq<Seq<char>>), CliErrorView> {
    match spec_scan_global(words, default_address, default_api_key, Seq::empty()) {
        Err(e) => Err(e),
        Ok((address, api_key, others)) => if spec_is_blank(address) {
            Err(CliErrorView::EmptyAddress)
        } else if api_key matches Some(k) && k.len() == 0 {
            Err(CliErrorView::EmptyApiKey)
        } else {
            Ok((spec_trim_trailing_slashes(address), api_key, others))
        },
    }
}

/// Reads `--address` and `--api-key` anywhere on the command line, starting from the
/// environment's values, and leaves the other words in order for the command.
pub fn global(values: Vec<String>, default_address: String, default_api_key: Option<String>) -> (r:
    Result<GlobalOptions, CliError>)
    ensures
        match spec_global(
            texts(values@),
            default_address@,
            opt_text(default_api_key),
        ) {
            Ok((address, api_key, others)) => r matches Ok(g) && g.address@ == address && match g.api_key {
                Some(k) => api_key == Some(k@),
                None => api_key is None,
            } && g.arguments@ == others,
            Err(e) => r matches Err(x) && x@ == e,
        },
{
    let mut input = Arguments::new(values);
    let mut output: Vec<String> = Vec::new();
    let mut address = default_address;
    let mut api_key = default_api_key;
    let ghost init_key = opt_text(api_key);
    let ghost whole = input@;
    assert(texts(output@) =~= Seq::<Seq<char>>::empty());
    loop
        invariant
            whole == texts(values@),
            init_key == opt_text(default_api_key),
            spec_scan_global(whole, default_address@, init_key, Seq::empty()) == spec_scan_global(
                input@,
                address@,
                opt_text(api_key),
                texts(output@),
            ),
        ensures
            input@.len() == 0,
            spec_scan_global(whole, default_address@, init_key, Seq::empty()) == spec_scan_global(
                input@,
                address@,
                opt_text(api_key),
                texts(output@),
            ),
        decreases input@.len(),
    {
        let ghost before = input@;
        let value = match input.next() {
            Some(v) => v,
            None => break,
        };
        proof {
            if before.len() >= 2 {
                assert(before.subrange(2, before.len() as int) =~= before.drop_first().drop_first());
            }
        }
        if str_eq(value.as_str(), "--address") {
            proof {
                reveal_strlit("--address");
            }
            address = match input.required("--address") {
                Ok(v) => v,
                Err(e) => {
                    assert(before.len() == 1 && before[0] == "--address"@);
                    assert(spec_scan_global(before, address@, opt_text(api_key), texts(output@))
                        == Err::<(Seq<char>, Option<Seq<char>>, Seq<Seq<char>>), CliErrorView>(
                        CliErrorView::MissingValue("--address"@),
                    ));
                    return Err(e);
                },
            };
        } else if str_eq(value.as_str(), "--api-key") {
            proof {
                reveal_strlit("--api-key");
                reveal_strlit("--address");
            }
            api_key = Some(
                match input.required("--api-key") {
                    Ok(v) => v,
                    Err(e) => {
                        assert(before.len() == 1 && before[0] == "--api-key"@);
                        assert(before[0] != "--address"@);
                        assert(spec_scan_global(before, address@, opt_text(api_key), texts(output@))
                            == Err::<(Seq<char>, Option<Seq<char>>, Seq<Seq<char>>), CliErrorView>(
                            CliErrorView::MissingValue("--api-key"@),
                        ));
                        return Err(e);
                    },
                },
            );
        } else {
            let ghost before_out = texts(output@);
            let ghost word = value@;
            output.push(value);
            assert(texts(output@) =~= before_out.push(word));
        }
    }
    if is_blank(address.as_str()) {
        return Err(CliError::EmptyAddress);
    }
    if let Some(key) = &api_key {
        if key.as_str().unicode_len() == 0 {
            return Err(CliError::EmptyApiKey);
        }
    }
    let trimmed = trim_trailing_slashes(address.as_str());
    Ok(GlobalOptions { address: trimmed, api_key, arguments: Arguments::new(output) })
}

/// Options given as `--name value` pairs; a later value for a name replaces an earlier one.
pub struct NamedOptions {
    entries: Vec<(String, String)>,
}

pub open spec fn entries_map(entries: Seq<(String, String)>) -> Map<Seq<char>, Seq<char>>
    decreases entries.len(),
{
    if entries.len() == 0 {
        Map::empty()
    } else {
        entries_map(entries.drop_last()).insert(entries.last().0@, entries.last().1@)
    }
}

impl View for NamedOptions {
    type V = Map<Seq<char>, Seq<char>>;

    closed spec fn view(&self) -> Map<Seq<char>, Seq<char>> {
        entries_map(self.entries@)
    }
}

/// The options of a command, or the first word that is not an allowed option or lacks a value.
pub open spec fn spec_named_options(
    words: Seq<Seq<char>>,
    allowed: Seq<Seq<char>>,
    found: Map<Seq<char>, Seq<char>>,
) -> Result<Map<Seq<char>, Seq<char>>, CliErrorView>
    decreases words.len(),
{
    if words.len() == 0 {
        Ok(found)
    } else if !allowed.contains(words[0]) {
        Err(CliErrorView::UnknownOption(words[0]))
    } else if words.len() < 2 {
        Err(CliErrorView::MissingValue(words[0]))
    } else {
        spec_named_options(
            words.subrange(2, words.len() as int),
            allowed,
            found.insert(words[0], words[1]),
        )
    }
}

pub open spec fn str_views(values: Seq<&str>) -> Seq<Seq<char>> {
    values.map_values(|s: &str| s@)
}

fn is_allowed(allowed: &[&str], option: &str) -> (found: bool)
    ensures
        found == str_views(allowed@).contains(option@),
{
    let mut i: usize = 0;
    while i < allowed.len()
        invariant
            i <= allowed@.len(),
            forall|k: int| 0 <= k < i ==> allowed@[k]@ != option@,
        decreases allowed.len() - i,
    {
        if str_eq(allowed[i], option) {
            assert(str_views(allowed@)[i as int] == option@);
            return true;
        }
        i = i + 1;
    }
    proof {
        if str_views(allowed@).contains(option@) {
            let k = choose|k: int| 0 <= k < str_views(allowed@).len() && str_views(allowed@)[k] == option@;
            assert(allowed@[k]@ == option@);
        }
    }
    false
}

/// Reads `--name value` pairs, accepting only the allowed names.
pub fn named_options(arguments: Arguments, allowed: &[&str]) -> (r: Result<NamedOptions, CliError>)
    ensures
        match spec_named_options(arguments@, str_views(allowed@), Map::empty()) {
            Ok(m) => r matches Ok(v) && v@ == m,
            Err(e) => r matches Err(x) && x@ == e,
        },
{
    let ghost whole = arguments@;
    let mut rest = arguments;
    let mut entries: Vec<(String, String)> = Vec::new();
    assert(entries_map(entries@) =~= Map::<Seq<char>, Seq<char>>::empty());
    loop
        invariant
            whole == arguments@,
            spec_named_options(whole, str_views(allowed@), Map::empty()) == spec_named_options(
                rest@,
                str_views(allowed@),
                entries_map(entries@),
            ),
        ensures
            rest@.len() == 0,
            spec_named_options(whole, str_views(allowed@), Map::empty()) == spec_named_options(
                rest@,
                str_views(allowed@),
                entries_map(entries@),
            ),
        decreases rest@.len(),
    {
        let ghost before = rest@;
        let option = match rest.next() {
            Some(o) => o,
            None => break,
        };
        if !is_allowed(allowed, option.as_str()) {
            assert(before[0] == option@);
            return Err(CliError::UnknownOption(option));
        }
        let value = match rest.required(option.as_str()) {
            Ok(v) => v,
            Err(e) => {
                assert(before.len() == 1 && before[0] == option@);
                return Err(e);
            },
        };
        proof {
            assert(before.subrange(2, before.len() as int) =~= before.drop_first().drop_first());
        }
        let ghost before_entries = entries@;
        entries.push((option, value));
        proof {
            assert(entries@.drop_last() =~= before_entries);
        }
    }
    Ok(NamedOptions { entries })
}

impl NamedOptions {
    /// The value given for `name`, the last one when it was given more than once.
    pub fn get(&self, name: &str) -> (value: Option<String>)
        ensures
            match value {
                Some(v) => self@.contains_key(name@) && self@[name@] == v@,
                None => !self@.contains_key(name@),
            },
    {
        let mut i = self.entries.len();
        let ghost all = self.entries@;
        assert(all.subrange(0, i as int) =~= all);
        while i > 0
            invariant
                i <= all.len(),
                all == self.entries@,
                entries_map(all).contains_key(name@) == entries_map(all.subrange(0, i as int)).contains_key(name@),
                entries_map(all.subrange(0, i as int)).contains_key(name@) ==> entries_map(all)[name@] == entries_map(all.subrange(0, i as int))[name@],
            decreases i,
        {
            let ghost prefix = all.subrange(0, i as int);
            assert(prefix.drop_last() =~= all.subrange(0, i - 1));
            assert(prefix.last() == self.entries@[i - 1]);
            if str_eq(self.entries[i - 1].0.as_str(), name) {
                return Some(self.entries[i - 1].1.clone());
            }
            i = i - 1;
        }
        None
    }
}

/// The string value of a required option.
pub fn required(values: &NamedOptions, name: &str) -> (r: Result<String, CliError>)
    ensures
        values@.contains_key(name@) ==> (r matches Ok(v) && v@ == values@[name@]),
        !values@.contains_key(name@) ==> (r matches Err(CliError::Required(n)) && n@ == name@),
{
    match values.get(name) {
        Some(v) => Ok(v),
        None => Err(CliError::Required(name.to_owned())),
    }
}

/// The value of the single option a command takes.
pub fn required_option(arguments: Arguments, name: &str) -> (r: Result<String, CliError>)
    ensures
        match spec_named_options(arguments@, seq![name@], Map::empty()) {
            Ok(m) => if m.contains_key(name@) {
                r matches Ok(v) && v@ == m[name@]
            } else {
                r matches Err(CliError::Required(n)) && n@ == name@
            },
            Err(e) => r matches Err(x) && x@ == e,
        },
{
    let allowed = [name];
    assert(str_views(allowed@) =~= seq![name@]);
    let values = match named_options(arguments, &allowed) {
        Ok(v) => v,
        Err(e) => return Err(e),
    };
    required(&values, name)
}

/// Whether a byte is an ASCII letter or digit, which percent-encoding leaves as it is.
pub open spec fn is_ascii_alphanumeric(b: u8) -> bool {
    (48 <= b <= 57) || (65 <= b <= 90) || (97 <= b <= 122)
}

pub open spec fn upper_hex_digit(d: nat) -> char {
    if d < 10 {
        (48 + d) as char
    } else {
        (55 + d) as char
    }
}

/// Percent-encoding of every byte that is not an ASCII letter or digit, with uppercase digits.
pub open spec fn percent_encoded(bytes: Seq<u8>) -> Seq<char>
    decreases bytes.len(),
{
    if bytes.len() == 0 {
        Seq::empty()
    } else {
        (if is_ascii_alphanumeric(bytes[0]) {
            seq![bytes[0] as char]
        } else {
            seq!['%', upper_hex_digit((bytes[0] / 16) as nat), upper_hex_digit((bytes[0] % 16) as nat)]
        }) + percent_encoded(bytes.drop_first())
    }
}

/// Calls `percent_encoding::utf8_percent_encode(value, NON_ALPHANUMERIC)`. The contract claims
/// the crate's documented behaviour: bytes outside the ASCII letters and digits become `%`
/// and two uppercase hexadecimal digits (`percent_encode_byte`), the rest are kept.
#[verifier::external_body]
fn percent_encode_non_alphanumeric(value: &str) -> (text: String)
    ensures
        text@ == percent_encoded(vstd::utf8::encode_utf8(value@)),
{
    percent_encoding::utf8_percent_encode(value, percent_encoding::NON_ALPHANUMERIC).to_string()
}

/// Encodes a value for one segment of an API path.
pub fn encoded(value: &str) -> (text: String)
    ensures
        text@ == percent_encoded(vstd::utf8::encode_utf8(value@)),
{
    percent_encode_non_alphanumeric(value)
}

} // verus!
