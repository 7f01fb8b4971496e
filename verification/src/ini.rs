//! The key configuration: a UE `DefaultCrypto.ini`-style `key=value` text.
use vstd::prelude::*;
use base64::Engine;
use crate::error::{DecodeError, Error, ErrorView};

verus! {

/// Parsed contents of a UE4 `DefaultCrypto.ini` file.
#[derive(Debug, Clone)]
pub struct CryptoConfig {
    /// AES-256 encryption key (32 bytes).
    pub encryption_key: Option<Vec<u8>>,
    /// RSA public exponent, little-endian.
    pub signing_public_exponent: Option<Vec<u8>>,
    /// RSA modulus, little-endian.
    pub signing_modulus: Option<Vec<u8>>,
    /// RSA private exponent, little-endian. Only present in editor/developer configs.
    pub signing_private_exponent: Option<Vec<u8>>,
}

/// The mathematical value of a [`CryptoConfig`].
pub struct CryptoConfigView {
    pub encryption_key: Option<Seq<u8>>,
    pub signing_public_exponent: Option<Seq<u8>>,
    pub signing_modulus: Option<Seq<u8>>,
    pub signing_private_exponent: Option<Seq<u8>>,
}

pub open spec fn opt_bytes_view(o: Option<Vec<u8>>) -> Option<Seq<u8>> {
    match o {
        Some(v) => Some(v@),
        None => None,
    }
}

impl View for CryptoConfig {
    type V = CryptoConfigView;

    open spec fn view(&self) -> CryptoConfigView {
        CryptoConfigView {
            encryption_key: opt_bytes_view(self.encryption_key),
            signing_public_exponent: opt_bytes_view(self.signing_public_exponent),
            signing_modulus: opt_bytes_view(self.signing_modulus),
            signing_private_exponent: opt_bytes_view(self.signing_private_exponent),
        }
    }
}

/// The configuration with no value set.
pub open spec fn empty_config() -> CryptoConfigView {
    CryptoConfigView {
        encryption_key: None,
        signing_public_exponent: None,
        signing_modulus: None,
        signing_private_exponent: None,
    }
}

impl Default for CryptoConfig {
    fn default() -> (c: CryptoConfig)
        ensures
            c@ == empty_config(),
    {
        CryptoConfig {
            encryption_key: None,
            signing_public_exponent: None,
            signing_modulus: None,
            signing_private_exponent: None,
        }
    }
}

/// The keys of the configuration that are read; all others are ignored.
#[derive(Clone, Copy, PartialEq, Eq, Structural)]
pub enum IniField {
    EncryptionKey,
    SigningPublicExponent,
    SigningModulus,
    SigningPrivateExponent,
}

/// `cfg` with the value of `field` replaced by `value`.
pub open spec fn config_with(
    cfg: CryptoConfigView,
    field: IniField,
    value: Option<Seq<u8>>,
) -> CryptoConfigView {
    match field {
        IniField::EncryptionKey => CryptoConfigView { encryption_key: value, ..cfg },
        IniField::SigningPublicExponent => CryptoConfigView { signing_public_exponent: value, ..cfg },
        IniField::SigningModulus => CryptoConfigView { signing_modulus: value, ..cfg },
        IniField::SigningPrivateExponent => CryptoConfigView {
            signing_private_exponent: value,
            ..cfg
        },
    }
}

/// The field that a key names, if it is one of those read.
pub open spec fn field_named(key: Seq<char>) -> Option<IniField> {
    if key == "EncryptionKey"@ {
        Some(IniField::EncryptionKey)
    } else if key == "SigningPublicExponent"@ {
        Some(IniField::SigningPublicExponent)
    } else if key == "SigningModulus"@ {
        Some(IniField::SigningModulus)
    } else if key == "SigningPrivateExponent"@ {
        Some(IniField::SigningPrivateExponent)
    } else {
        None
    }
}

/// Whether `c` has the Unicode `White_Space` property (what `char::is_whitespace` tests).
pub open spec fn is_white_space(c: char) -> bool {
    let u = c as u32;
    ||| 0x09 <= u <= 0x0d
    ||| u == 0x20
    ||| u == 0x85
    ||| u == 0xa0
    ||| u == 0x1680
    ||| 0x2000 <= u <= 0x200a
    ||| u == 0x2028
    ||| u == 0x2029
    ||| u == 0x202f
    ||| u == 0x205f
    ||| u == 0x3000
}

/// The characters that a trim removes: white space, or double quotes when `quotes`.
pub open spec fn is_stripped(c: char, quotes: bool) -> bool {
    if quotes {
        c == '"'
    } else {
        is_white_space(c)
    }
}

/// `s` without its leading stripped characters.
pub open spec fn strip_start(s: Seq<char>, quotes: bool) -> Seq<char>
    decreases s.len(),
{
    if s.len() > 0 && is_stripped(s[0], quotes) {
        strip_start(s.drop_first(), quotes)
    } else {
        s
    }
}

/// `s` without its trailing stripped characters.
pub open spec fn strip_end(s: Seq<char>, quotes: bool) -> Seq<char>
    decreases s.len(),
{
    if s.len() > 0 && is_stripped(s.last(), quotes) {
        strip_end(s.drop_last(), quotes)
    } else {
        s
    }
}

/// `s` without leading and trailing white space (`str::trim`).
pub open spec fn trim(s: Seq<char>) -> Seq<char> {
    strip_end(strip_start(s, false), false)
}

/// `s` without leading and trailing double quotes (`str::trim_matches('"')`).
pub open spec fn trim_quotes(s: Seq<char>) -> Seq<char> {
    strip_end(strip_start(s, true), true)
}

/// The first position at or after `i` where `s` holds `c`, if any.
pub open spec fn find_from(s: Seq<char>, c: char, i: int) -> Option<int>
    decreases s.len() - i,
{
    if i < 0 || i >= s.len() {
        None
    } else if s[i] == c {
        Some(i)
    } else {
        find_from(s, c, i + 1)
    }
}

/// The end of the line that starts at `i`: the position of the next `'\n'`, or the end of `s`.
pub open spec fn line_end(s: Seq<char>, i: int) -> int
    decreases s.len() - i,
{
    if i < 0 || i >= s.len() || s[i] == '\n' {
        i
    } else {
        line_end(s, i + 1)
    }
}

pub proof fn lemma_line_end_bounds(s: Seq<char>, i: int)
    requires
        0 <= i <= s.len(),
    ensures
        i <= line_end(s, i) <= s.len(),
        line_end(s, i) < s.len() ==> s[line_end(s, i)] == '\n',
    decreases s.len() - i,
{
    if i < s.len() && s[i] != '\n' {
        lemma_line_end_bounds(s, i + 1);
    }
}

/// The base64 (standard alphabet, with padding) decoding of the UTF-8 bytes of
/// `text`, as `base64::engine::general_purpose::STANDARD.decode` computes it.
pub uninterp spec fn base64_standard_decode(text: Seq<char>) -> Result<Seq<u8>, DecodeError>;

/// Decodes `text` with `base64::engine::general_purpose::STANDARD.decode`; the
/// contract names the result, which depends on `text` alone, and the error
/// cases of `base64::DecodeError` are carried over one for one.
#[verifier::external_body]
fn base64_decode(text: &str) -> (r: Result<Vec<u8>, DecodeError>)
    ensures
        match r {
            Ok(v) => base64_standard_decode(text@) == Ok::<Seq<u8>, DecodeError>(v@),
            Err(e) => base64_standard_decode(text@) == Err::<Seq<u8>, DecodeError>(e),
        },
{
    match base64::engine::general_purpose::STANDARD.decode(text) {
        Ok(v) => Ok(v),
        Err(base64::DecodeError::InvalidByte(i, b)) => Err(DecodeError::InvalidByte(i, b)),
        Err(base64::DecodeError::InvalidLength(n)) => Err(DecodeError::InvalidLength(n)),
        Err(base64::DecodeError::InvalidLastSymbol(i, b)) => Err(DecodeError::InvalidLastSymbol(i, b)),
        Err(base64::DecodeError::InvalidPadding) => Err(DecodeError::InvalidPadding),
    }
}

/// What a configuration value stands for: nothing when empty, else its base64 decoding.
pub open spec fn decode_optional(value: Seq<char>) -> Result<Option<Seq<u8>>, DecodeError> {
    if value.len() == 0 {
        Ok(None)
    } else {
        match base64_standard_decode(value) {
            Ok(v) => Ok(Some(v)),
            Err(e) => Err(e),
        }
    }
}

/// The setting that a line makes, if any: a line without `'='` makes none;
/// otherwise the key is what precedes the first `'='`, the value what follows
/// it, both trimmed, and the value also loses its surrounding double quotes.
/// A key that names none of the fields read makes no setting.
pub open spec fn line_setting(line: Seq<char>) -> Option<(IniField, Seq<char>)> {
    let t = trim(line);
    match find_from(t, '=', 0) {
        None => None,
        Some(eq) => match field_named(trim(t.subrange(0, eq))) {
            None => None,
            Some(field) => Some((field, trim_quotes(trim(t.subrange(eq + 1, t.len() as int))))),
        },
    }
}

/// The effect of one line on the configuration read so far: a setting sets
/// its field to the decoded value, or fails with the decoding error.
pub open spec fn apply_line(cfg: CryptoConfigView, line: Seq<char>) -> Result<CryptoConfigView, DecodeError> {
    match line_setting(line) {
        None => Ok(cfg),
        Some((field, value)) => match decode_optional(value) {
            Ok(v) => Ok(config_with(cfg, field, v)),
            Err(e) => Err(e),
        },
    }
}

/// The configuration that the lines of `s` from position `i` on give, starting from `cfg`;
/// the first value that is not valid base64 ends the reading with its error.
pub open spec fn apply_lines_from(s: Seq<char>, i: int, cfg: CryptoConfigView) -> Result<CryptoConfigView, DecodeError>
    decreases s.len() - i,
{
    if i < 0 || i > s.len() {
        Ok(cfg)
    } else {
        let e = line_end(s, i);
        proof {
            lemma_line_end_bounds(s, i);
        }
        match apply_line(cfg, s.subrange(i, e)) {
            Err(err) => Err(err),
            Ok(next) => if e >= s.len() {
                Ok(next)
            } else {
                apply_lines_from(s, e + 1, next)
            },
        }
    }
}

/// The lines of `s` from the one that starts at position `i` on, each without its `'\n'`.
pub open spec fn lines_from(s: Seq<char>, i: int) -> Seq<Seq<char>>
    decreases s.len() - i,
{
    if i < 0 || i > s.len() {
        Seq::empty()
    } else {
        let e = line_end(s, i);
        proof {
            lemma_line_end_bounds(s, i);
        }
        if e >= s.len() {
            seq![s.subrange(i, e)]
        } else {
            seq![s.subrange(i, e)] + lines_from(s, e + 1)
        }
    }
}

/// The `'\n'`-separated lines of `s` (a `'\r'` before a `'\n'` stays in its
/// line, where trimming removes it, as `str::lines` does).
pub open spec fn ini_lines(s: Seq<char>) -> Seq<Seq<char>> {
    lines_from(s, 0)
}

/// The configuration that `lines` give, in order, starting from `cfg`.
pub open spec fn apply_lines(lines: Seq<Seq<char>>, cfg: CryptoConfigView) -> Result<CryptoConfigView, DecodeError>
    decreases lines.len(),
{
    if lines.len() == 0 {
        Ok(cfg)
    } else {
        match apply_line(cfg, lines[0]) {
            Err(e) => Err(e),
            Ok(next) => apply_lines(lines.drop_first(), next),
        }
    }
}

/// The value of `field` in `cfg`.
pub open spec fn config_field(cfg: CryptoConfigView, field: IniField) -> Option<Seq<u8>> {
    match field {
        IniField::EncryptionKey => cfg.encryption_key,
        IniField::SigningPublicExponent => cfg.signing_public_exponent,
        IniField::SigningModulus => cfg.signing_modulus,
        IniField::SigningPrivateExponent => cfg.signing_private_exponent,
    }
}

/// The value text of the last of `lines` that sets `field`, if any does.
pub open spec fn last_setting(lines: Seq<Seq<char>>, field: IniField) -> Option<Seq<char>>
    decreases lines.len(),
{
    if lines.len() == 0 {
        None
    } else {
        match last_setting(lines.drop_first(), field) {
            Some(v) => Some(v),
            None => match line_setting(lines[0]) {
                Some((f, v)) => if f == field {
                    Some(v)
                } else {
                    None
                },
                None => None,
            },
        }
    }
}

/// Whether `line` sets a field to a non-empty value that is not valid base64.
pub open spec fn line_has_bad_value(line: Seq<char>) -> bool {
    line_setting(line) matches Some((_, v)) && decode_optional(v) is Err
}

/// The decoded value of a value text that decodes.
pub open spec fn decoded_value(value: Seq<char>) -> Option<Seq<u8>> {
    match decode_optional(value) {
        Ok(o) => o,
        Err(_) => None,
    }
}

proof fn lemma_apply_lines_from(s: Seq<char>, i: int, cfg: CryptoConfigView)
    requires
        0 <= i <= s.len(),
    ensures
        apply_lines_from(s, i, cfg) == apply_lines(lines_from(s, i), cfg),
    decreases s.len() - i,
{
    lemma_line_end_bounds(s, i);
    let e = line_end(s, i);
    let lines = lines_from(s, i);
    if e < s.len() {
        assert(lines.drop_first() == lines_from(s, e + 1));
        if let Ok(next) = apply_line(cfg, s.subrange(i, e)) {
            lemma_apply_lines_from(s, e + 1, next);
        }
    } else {
        assert(lines.drop_first().len() == 0);
    }
}

proof fn lemma_apply_lines_last(lines: Seq<Seq<char>>, cfg: CryptoConfigView, field: IniField)
    ensures
        apply_lines(lines, cfg) matches Ok(c) ==> config_field(c, field) == match last_setting(lines, field) {
            None => config_field(cfg, field),
            Some(v) => decoded_value(v),
        },
    decreases lines.len(),
{
    if lines.len() > 0 {
        if let Ok(next) = apply_line(cfg, lines[0]) {
            lemma_apply_lines_last(lines.drop_first(), next, field);
        }
    }
}

proof fn lemma_apply_lines_error(lines: Seq<Seq<char>>, cfg: CryptoConfigView)
    ensures
        apply_lines(lines, cfg) is Err <==> exists|j: int|
            0 <= j < lines.len() && #[trigger] line_has_bad_value(lines[j]),
    decreases lines.len(),
{
    if lines.len() > 0 {
        let rest = lines.drop_first();
        match apply_line(cfg, lines[0]) {
            Ok(next) => {
                lemma_apply_lines_error(rest, next);
                assert(!line_has_bad_value(lines[0]));
                if exists|j: int| 0 <= j < lines.len() && #[trigger] line_has_bad_value(lines[j]) {
                    let j = choose|j: int| 0 <= j < lines.len() && #[trigger] line_has_bad_value(lines[j]);
                    assert(rest[j - 1] == lines[j]);
                }
                if exists|j: int| 0 <= j < rest.len() && #[trigger] line_has_bad_value(rest[j]) {
                    let j = choose|j: int| 0 <= j < rest.len() && #[trigger] line_has_bad_value(rest[j]);
                    assert(lines[j + 1] == rest[j]);
                }
            },
            Err(_) => {
                assert(line_has_bad_value(lines[0]));
            },
        }
    }
}

/// Reading a configuration text: for each field read, the last line that sets
/// it decides its value (its decoded value, `None` for an empty one), and a
/// field that no line sets stays `None`.
pub proof fn lemma_ini_last_line_wins(s: Seq<char>, field: IniField)
    ensures
        parse_ini(s) matches Ok(c) ==> config_field(c, field) == match last_setting(ini_lines(s), field) {
            None => None,
            Some(v) => decoded_value(v),
        },
{
    lemma_apply_lines_from(s, 0, empty_config());
    lemma_apply_lines_last(ini_lines(s), empty_config(), field);
}

/// Reading a configuration text fails exactly when some line sets a field to a
/// non-empty value that is not valid base64; lines with other keys or without
/// `'='` never make it fail.
pub proof fn lemma_ini_error_iff(s: Seq<char>)
    ensures
        parse_ini(s) is Err <==> exists|j: int|
            0 <= j < ini_lines(s).len() && #[trigger] line_has_bad_value(ini_lines(s)[j]),
{
    lemma_apply_lines_from(s, 0, empty_config());
    lemma_apply_lines_error(ini_lines(s), empty_config());
}

/// An empty text gives the configuration with nothing set.
pub proof fn lemma_ini_empty_text()
    ensures
        parse_ini(Seq::<char>::empty()) == Ok::<CryptoConfigView, DecodeError>(empty_config()),
{
    let s = Seq::<char>::empty();
    assert(line_end(s, 0) == 0);
    assert(s.subrange(0, 0) == s);
    assert(strip_start(s, false) == s);
    assert(strip_end(s, false) == s);
}

/// The configuration that the text `s` describes.
pub open spec fn parse_ini(s: Seq<char>) -> Result<CryptoConfigView, DecodeError> {
    apply_lines_from(s, 0, empty_config())
}

proof fn lemma_line_end_push_newline(s: Seq<char>, i: int)
    requires
        0 <= i <= s.len(),
    ensures
        line_end(s.push('\n'), i) == line_end(s, i),
    decreases s.len() - i,
{
    if i < s.len() && s[i] != '\n' {
        lemma_line_end_push_newline(s, i + 1);
    }
}

proof fn lemma_line_end_no_newline(s: Seq<char>, i: int)
    requires
        0 <= i <= s.len(),
        forall|j: int| 0 <= j < s.len() ==> s[j] != '\n',
    ensures
        line_end(s, i) == s.len(),
    decreases s.len() - i,
{
    if i < s.len() {
        lemma_line_end_no_newline(s, i + 1);
    }
}

/// An empty line changes nothing.
proof fn lemma_apply_empty_line(cfg: CryptoConfigView)
    ensures
        apply_line(cfg, Seq::<char>::empty()) == Ok::<CryptoConfigView, DecodeError>(cfg),
{
    let s = Seq::<char>::empty();
    assert(strip_start(s, false) == s);
    assert(strip_end(s, false) == s);
}

proof fn lemma_apply_lines_from_push_newline(s: Seq<char>, i: int, cfg: CryptoConfigView)
    requires
        0 <= i <= s.len(),
    ensures
        apply_lines_from(s.push('\n'), i, cfg) == apply_lines_from(s, i, cfg),
    decreases s.len() - i,
{
    let t = s.push('\n');
    lemma_line_end_push_newline(s, i);
    lemma_line_end_bounds(s, i);
    let e = line_end(s, i);
    assert(t.subrange(i, e) == s.subrange(i, e));
    if let Ok(next) = apply_line(cfg, s.subrange(i, e)) {
        if e < s.len() {
            lemma_apply_lines_from_push_newline(s, e + 1, next);
        } else {
            let u = t.len() as int;
            assert(line_end(t, u) == u);
            assert(t.subrange(u, u) == Seq::<char>::empty());
            lemma_apply_empty_line(next);
        }
    }
}

/// A `'\n'` after the last line changes nothing: the last line of a text
/// takes effect whether or not a `'\n'` ends it.
pub proof fn lemma_ini_final_newline(s: Seq<char>)
    ensures
        parse_ini(s.push('\n')) == parse_ini(s),
{
    lemma_apply_lines_from_push_newline(s, 0, empty_config());
}

/// The text that `lines` make when joined with a `'\n'` between each two.
pub open spec fn join_lines(lines: Seq<Seq<char>>) -> Seq<char>
    decreases lines.len(),
{
    if lines.len() == 0 {
        Seq::empty()
    } else if lines.len() == 1 {
        lines[0]
    } else {
        lines[0].push('\n') + join_lines(lines.drop_first())
    }
}

proof fn lemma_line_end_no_newline_before(s: Seq<char>, i: int, k: int)
    requires
        0 <= i <= k < line_end(s, i),
    ensures
        s[k] != '\n',
    decreases s.len() - i,
{
    if i < k {
        lemma_line_end_no_newline_before(s, i + 1, k);
    }
}

proof fn lemma_lines_from_split(s: Seq<char>, i: int)
    requires
        0 <= i <= s.len(),
    ensures
        lines_from(s, i).len() > 0,
        join_lines(lines_from(s, i)) == s.subrange(i, s.len() as int),
        forall|l: int, k: int|
            0 <= l < lines_from(s, i).len() && 0 <= k < lines_from(s, i)[l].len() ==> #[trigger] lines_from(
                s,
                i,
            )[l][k] != '\n',
    decreases s.len() - i,
{
    lemma_line_end_bounds(s, i);
    let e = line_end(s, i);
    let lines = lines_from(s, i);
    let first = s.subrange(i, e);
    assert forall|k: int| 0 <= k < first.len() implies first[k] != '\n' by {
        lemma_line_end_no_newline_before(s, i, i + k);
    }
    if e < s.len() {
        lemma_lines_from_split(s, e + 1);
        let rest = lines_from(s, e + 1);
        assert(lines[0] == first);
        assert(lines.drop_first() == rest);
        assert(first.push('\n') + s.subrange(e + 1, s.len() as int) == s.subrange(i, s.len() as int));
        assert forall|l: int, k: int| 0 <= l < lines.len() && 0 <= k < lines[l].len() implies #[trigger] lines[l][k]
            != '\n' by {
            if l > 0 {
                assert(lines[l] == rest[l - 1]);
            }
        }
    }
}

/// How a text is cut into lines: no line holds a `'\n'`, joining the lines
/// with `'\n'` gives back the text, and reading the text applies its lines
/// in order.
pub proof fn lemma_ini_lines_split(s: Seq<char>)
    ensures
        join_lines(ini_lines(s)) == s,
        forall|l: int, k: int|
            0 <= l < ini_lines(s).len() && 0 <= k < ini_lines(s)[l].len() ==> #[trigger] ini_lines(s)[l][k] != '\n',
        parse_ini(s) == apply_lines(ini_lines(s), empty_config()),
{
    lemma_lines_from_split(s, 0);
    assert(s.subrange(0, s.len() as int) == s);
    lemma_apply_lines_from(s, 0, empty_config());
}

/// The key that names `field` in a configuration text.
pub open spec fn field_key(field: IniField) -> Seq<char> {
    match field {
        IniField::EncryptionKey => "EncryptionKey"@,
        IniField::SigningPublicExponent => "SigningPublicExponent"@,
        IniField::SigningModulus => "SigningModulus"@,
        IniField::SigningPrivateExponent => "SigningPrivateExponent"@,
    }
}

proof fn lemma_find_from_first(s: Seq<char>, c: char, i: int, j: int)
    requires
        0 <= i <= j < s.len(),
        s[j] == c,
        forall|k: int| i <= k < j ==> s[k] != c,
    ensures
        find_from(s, c, i) == Some(j),
    decreases j - i,
{
    if i < j {
        lemma_find_from_first(s, c, i + 1, j);
    }
}

proof fn lemma_strip_keeps(s: Seq<char>, quotes: bool)
    requires
        s.len() > 0,
        !is_stripped(s[0], quotes),
        !is_stripped(s.last(), quotes),
    ensures
        strip_start(s, quotes) == s,
        strip_end(s, quotes) == s,
{
}

proof fn lemma_field_key_chars(field: IniField)
    ensures
        field_key(field).len() > 0,
        !is_white_space(field_key(field)[0]),
        !is_white_space(field_key(field).last()),
        forall|k: int| 0 <= k < field_key(field).len() ==> #[trigger] field_key(field)[k] != '=' && field_key(field)[k] != '\n',
        field_named(field_key(field)) == Some(field),
{
    reveal_strlit("EncryptionKey");
    reveal_strlit("SigningPublicExponent");
    reveal_strlit("SigningModulus");
    reveal_strlit("SigningPrivateExponent");
    assert("EncryptionKey"@.len() == 13);
    assert("SigningPublicExponent"@.len() == 21);
    assert("SigningModulus"@.len() == 14);
    assert("SigningPrivateExponent"@.len() == 22);
}

/// A text that is the line `Key=Value`, for the key of one of the fields read
/// and a value without `'\n'` that neither starts nor ends with white space
/// or a double quote, sets that field, and only it, to the base64 decoding of
/// the value, or fails with the decoding error.
pub proof fn lemma_ini_key_value(field: IniField, value: Seq<char>)
    requires
        value.len() > 0,
        forall|j: int| 0 <= j < value.len() ==> value[j] != '\n',
        !is_white_space(value[0]) && value[0] != '"',
        !is_white_space(value.last()) && value.last() != '"',
    ensures
        parse_ini(field_key(field) + seq!['='] + value) == match base64_standard_decode(value) {
            Ok(b) => Ok::<CryptoConfigView, DecodeError>(config_with(empty_config(), field, Some(b))),
            Err(e) => Err(e),
        },
{
    let name = field_key(field);
    let s = name + seq!['='] + value;
    let eq = name.len() as int;
    lemma_field_key_chars(field);
    assert forall|j: int| 0 <= j < s.len() implies s[j] != '\n' by {
        if j < eq {
            assert(s[j] == name[j]);
        } else if j > eq {
            assert(s[j] == value[j - eq - 1]);
        }
    }
    lemma_ini_single_line(s);
    assert(s[0] == name[0]);
    assert(s.last() == value.last());
    lemma_strip_keeps(s, false);
    assert(trim(s) == s);
    assert forall|k: int| 0 <= k < eq implies s[k] != '=' by {
        assert(s[k] == name[k]);
    }
    lemma_find_from_first(s, '=', 0, eq);
    assert(s.subrange(0, eq) == name);
    lemma_strip_keeps(name, false);
    assert(s.subrange(eq + 1, s.len() as int) == value);
    lemma_strip_keeps(value, false);
    lemma_strip_keeps(value, true);
}

/// A text without `'\n'` is a single line, and reading it applies that line.
pub proof fn lemma_ini_single_line(s: Seq<char>)
    requires
        forall|j: int| 0 <= j < s.len() ==> s[j] != '\n',
    ensures
        parse_ini(s) == apply_line(empty_config(), s),
{
    lemma_line_end_no_newline(s, 0);
    assert(s.subrange(0, s.len() as int) == s);
}

fn is_stripped_char(c: char, quotes: bool) -> (r: bool)
    ensures
        r == is_stripped(c, quotes),
{
    if quotes {
        c == '"'
    } else {
        let u = c as u32;
        (0x09 <= u && u <= 0x0d) || u == 0x20 || u == 0x85 || u == 0xa0 || u == 0x1680 || (0x2000
            <= u && u <= 0x200a) || u == 0x2028 || u == 0x2029 || u == 0x202f || u == 0x205f || u
            == 0x3000
    }
}

/// The bounds of `chars[lo..hi]` with its leading and trailing stripped characters removed.
fn strip_range(chars: &Vec<char>, lo: usize, hi: usize, quotes: bool) -> (r: (usize, usize))
    requires
        lo <= hi <= chars@.len(),
    ensures
        lo <= r.0 <= r.1 <= hi,
        chars@.subrange(r.0 as int, r.1 as int) == strip_end(
            strip_start(chars@.subrange(lo as int, hi as int), quotes),
            quotes,
        ),
{
    let mut a = lo;
    while a < hi && is_stripped_char(chars[a], quotes)
        invariant
            lo <= a <= hi <= chars@.len(),
            strip_start(chars@.subrange(lo as int, hi as int), quotes) == strip_start(
                chars@.subrange(a as int, hi as int),
                quotes,
            ),
        decreases hi - a,
    {
        assert(chars@.subrange(a as int, hi as int).drop_first() == chars@.subrange(a + 1, hi as int));
        a = a + 1;
    }
    assert(strip_start(chars@.subrange(a as int, hi as int), quotes) == chars@.subrange(a as int, hi as int));
    let mut b = hi;
    while b > a && is_stripped_char(chars[b - 1], quotes)
        invariant
            lo <= a <= b <= hi <= chars@.len(),
            strip_end(chars@.subrange(a as int, hi as int), quotes) == strip_end(
                chars@.subrange(a as int, b as int),
                quotes,
            ),
        decreases b - a,
    {
        assert(chars@.subrange(a as int, b as int).drop_last() == chars@.subrange(a as int, b - 1));
        b = b - 1;
    }
    (a, b)
}

/// Whether `chars[lo..hi]` spells `name`.
fn spells(chars: &Vec<char>, lo: usize, hi: usize, name: &str) -> (r: bool)
    requires
        lo <= hi <= chars@.len(),
    ensures
        r == (chars@.subrange(lo as int, hi as int) == name@),
{
    let n = name.unicode_len();
    if hi - lo != n {
        return false;
    }
    let mut k: usize = 0;
    while k < n
        invariant
            k <= n,
            n == name@.len(),
            hi - lo == n,
            lo <= hi <= chars@.len(),
            forall|j: int| 0 <= j < k ==> chars@[lo + j] == name@[j],
        decreases n - k,
    {
        if chars[lo + k] != name.get_char(k) {
            assert(chars@.subrange(lo as int, hi as int)[k as int] != name@[k as int]);
            return false;
        }
        k = k + 1;
    }
    assert(chars@.subrange(lo as int, hi as int) == name@);
    true
}

/// The field that the key `chars[lo..hi]` names, if it is one of those read.
fn field_of_key(chars: &Vec<char>, lo: usize, hi: usize) -> (r: Option<IniField>)
    requires
        lo <= hi <= chars@.len(),
    ensures
        r == field_named(chars@.subrange(lo as int, hi as int)),
{
    if spells(chars, lo, hi, "EncryptionKey") {
        Some(IniField::EncryptionKey)
    } else if spells(chars, lo, hi, "SigningPublicExponent") {
        Some(IniField::SigningPublicExponent)
    } else if spells(chars, lo, hi, "SigningModulus") {
        Some(IniField::SigningModulus)
    } else if spells(chars, lo, hi, "SigningPrivateExponent") {
        Some(IniField::SigningPrivateExponent)
    } else {
        None
    }
}

/// The characters of `content`, in order.
fn chars_of(content: &str) -> (r: Vec<char>)
    ensures
        r@ == content@,
{
    let mut out: Vec<char> = Vec::new();
    for c in it: content.chars()
        invariant
            out@ == it.seq().take(it.index() as int),
    {
        out.push(c);
    }
    out
}

/// Decode a configuration value: `None` when it is empty, else its base64 decoding.
fn decode_b64_optional(value: &str) -> (r: Result<Option<Vec<u8>>, Error>)
    ensures
        match decode_optional(value@) {
            Ok(o) => r matches Ok(x) && opt_bytes_view(x) == o,
            Err(d) => r matches Err(e) && e@ == ErrorView::Base64(d),
        },
{
    if value.is_empty() {
        return Ok(None);
    }
    match base64_decode(value) {
        Ok(v) => Ok(Some(v)),
        Err(d) => Err(Error::Base64(d)),
    }
}

/// Apply the line `chars[lo..hi]` of `content` to `config`.
fn apply_line_to(content: &str, chars: &Vec<char>, lo: usize, hi: usize, config: &mut CryptoConfig) -> (r: Result<(), Error>)
    requires
        chars@ == content@,
        lo <= hi <= chars@.len(),
    ensures
        match apply_line(old(config)@, chars@.subrange(lo as int, hi as int)) {
            Ok(c) => r is Ok && final(config)@ == c,
            Err(d) => r matches Err(e) && e@ == ErrorView::Base64(d),
        },
{
    let ghost line = chars@.subrange(lo as int, hi as int);
    let (a, b) = strip_range(chars, lo, hi, false);
    let ghost t = chars@.subrange(a as int, b as int);
    assert(t == trim(line));
    let mut eq = a;
    while eq < b && chars[eq] != '='
        invariant
            a <= eq <= b <= chars@.len(),
            t == chars@.subrange(a as int, b as int),
            find_from(t, '=', 0) == find_from(t, '=', eq - a),
        decreases b - eq,
    {
        eq = eq + 1;
    }
    if eq == b {
        return Ok(());
    }
    assert(find_from(t, '=', 0) == Some(eq - a));
    assert(t.subrange(0, eq - a) == chars@.subrange(a as int, eq as int));
    assert(t.subrange(eq - a + 1, t.len() as int) == chars@.subrange(eq + 1, b as int));
    let (k0, k1) = strip_range(chars, a, eq, false);
    let field = match field_of_key(chars, k0, k1) {
        Some(f) => f,
        None => {
            return Ok(());
        },
    };
    let (w0, w1) = strip_range(chars, eq + 1, b, false);
    let (v0, v1) = strip_range(chars, w0, w1, true);
    let text = content.substring_char(v0, v1);
    let value = match decode_b64_optional(text) {
        Ok(v) => v,
        Err(e) => {
            return Err(e);
        },
    };
    match field {
        IniField::EncryptionKey => {
            config.encryption_key = value;
        },
        IniField::SigningPublicExponent => {
            config.signing_public_exponent = value;
        },
        IniField::SigningModulus => {
            config.signing_modulus = value;
        },
        IniField::SigningPrivateExponent => {
            config.signing_private_exponent = value;
        },
    }
    Ok(())
}

impl CryptoConfig {
    /// Parse a `config.ini` from a string slice.
    ///
    /// Lines are separated by `'\n'`; each line is trimmed, and one without
    /// `'='` is skipped. The keys `EncryptionKey`, `SigningPublicExponent`,
    /// `SigningModulus` and `SigningPrivateExponent` set their field to their
    /// base64-decoded value (`None` for an empty value); a later line for the
    /// same key replaces an earlier one; other keys are ignored.
    pub fn from_ini_str(content: &str) -> (r: Result<CryptoConfig, Error>)
        ensures
            match parse_ini(content@) {
                Ok(c) => r matches Ok(x) && x@ == c,
                Err(d) => r matches Err(e) && e@ == ErrorView::Base64(d),
            },
    {
        let chars = chars_of(content);
        let n = chars.len();
        let mut config = CryptoConfig::default();
        let mut start: usize = 0;
        loop
            invariant
                chars@ == content@,
                n == chars@.len(),
                start <= n,
                parse_ini(content@) == apply_lines_from(content@, start as int, config@),
            decreases n - start,
        {
            let mut end = start;
            while end < n && chars[end] != '\n'
                invariant
                    start <= end <= n,
                    n == chars@.len(),
                    line_end(chars@, start as int) == line_end(chars@, end as int),
                decreases n - end,
            {
                end = end + 1;
            }
            proof {
                lemma_line_end_bounds(chars@, start as int);
            }
            match apply_line_to(content, &chars, start, end, &mut config) {
                Ok(()) => {},
                Err(e) => {
                    return Err(e);
                },
            }
            if end >= n {
                return Ok(config);
            }
            start = end + 1;
        }
    }
}

} // verus!
