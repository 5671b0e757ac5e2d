//! Transport configuration and the checks made before a serial port is opened.

use vstd::prelude::*;

verus! {

/// Number of data bits per character.
#[derive(Clone, Copy, Debug, PartialEq, Eq, Structural)]
pub enum DataBits {
    Five,
    Six,
    Seven,
    Eight,
}

/// Number of stop bits per character.
#[derive(Clone, Copy, Debug, PartialEq, Eq, Structural)]
pub enum StopBits {
    One,
    Two,
}

/// Parity checking mode.
#[derive(Clone, Copy, Debug, PartialEq, Eq, Structural)]
pub enum Parity {
    /// No parity bit.
    Off,
    Even,
    Odd,
}

/// Why a request to open a serial port was turned down before anything was touched.
#[derive(Clone, Copy, Debug, PartialEq, Eq, Structural)]
pub enum ConfigError {
    /// No device name was chosen.
    NoPortSelected,
    /// The custom baud rate is not a decimal number that fits 32 bits.
    BaudNotANumber,
    /// The custom baud rate is zero.
    BaudZero,
    /// The chosen device is not among the devices found.
    PortNotListed,
}

/// The baud rates offered for selection.
pub const BAUD_PRESETS: [u32; 5] = [9600, 19200, 38400, 57600, 115200];

/// The baud rate selected at start.
pub const DEFAULT_BAUD: u32 = 115200;

/// The value of the baud selection that stands for "use the custom text".
pub const CUSTOM_BAUD: u32 = 0;

impl DataBits {
    /// The number of bits this setting stands for.
    pub open spec fn spec_count(self) -> u8 {
        match self {
            DataBits::Five => 5,
            DataBits::Six => 6,
            DataBits::Seven => 7,
            DataBits::Eight => 8,
        }
    }

    /// The number of bits this setting stands for.
    #[verifier::when_used_as_spec(spec_count)]
    pub fn count(self) -> (n: u8)
        ensures
            n == self.spec_count(),
    {
        match self {
            DataBits::Five => 5,
            DataBits::Six => 6,
            DataBits::Seven => 7,
            DataBits::Eight => 8,
        }
    }

    /// The setting for `n` data bits; there is one for 5, 6, 7 and 8 only.
    pub fn from_count(n: u8) -> (bits: Option<DataBits>)
        ensures
            5 <= n <= 8 ==> bits is Some && bits->0.spec_count() == n,
            !(5 <= n <= 8) ==> bits is None,
    {
        match n {
            5 => Some(DataBits::Five),
            6 => Some(DataBits::Six),
            7 => Some(DataBits::Seven),
            8 => Some(DataBits::Eight),
            _ => None,
        }
    }
}

impl StopBits {
    /// The number of bits this setting stands for.
    pub open spec fn spec_count(self) -> u8 {
        match self {
            StopBits::One => 1,
            StopBits::Two => 2,
        }
    }

    /// The number of bits this setting stands for.
    #[verifier::when_used_as_spec(spec_count)]
    pub fn count(self) -> (n: u8)
        ensures
            n == self.spec_count(),
    {
        match self {
            StopBits::One => 1,
            StopBits::Two => 2,
        }
    }

    /// The setting for `n` stop bits; there is one for 1 and 2 only.
    pub fn from_count(n: u8) -> (bits: Option<StopBits>)
        ensures
            1 <= n <= 2 ==> bits is Some && bits->0.spec_count() == n,
            !(1 <= n <= 2) ==> bits is None,
    {
        match n {
            1 => Some(StopBits::One),
            2 => Some(StopBits::Two),
            _ => None,
        }
    }
}

/// Value of `c` as a decimal digit, if it is one.
pub open spec fn decimal_digit(c: char) -> Option<nat> {
    let n = c as u32;
    if 0x30 <= n <= 0x39 {
        Some((n - 0x30) as nat)
    } else {
        None
    }
}

/// Every character of `digits` is a decimal digit.
pub open spec fn all_decimal(digits: Seq<char>) -> bool {
    forall|i: int| 0 <= i < digits.len() ==> decimal_digit(#[trigger] digits[i]) is Some
}

/// The number that `digits` write in base 10 (a character that is no digit counts as zero).
pub open spec fn decimal_number(digits: Seq<char>) -> nat
    decreases digits.len(),
{
    if digits.len() == 0 {
        0
    } else {
        decimal_number(digits.drop_last()) * 10 + match decimal_digit(digits.last()) {
            Some(v) => v,
            None => 0,
        }
    }
}

/// `text` without a leading plus sign.
pub open spec fn after_sign(text: Seq<char>) -> Seq<char> {
    if text.len() > 0 && text[0] == '+' {
        text.drop_first()
    } else {
        text
    }
}

/// The number that `text` writes: an optional `+`, then one or more decimal
/// digits whose value fits 32 bits. Anything else, white space included, is
/// no number.
pub open spec fn baud_value(text: Seq<char>) -> Option<u32> {
    let digits = after_sign(text);
    if digits.len() > 0 && all_decimal(digits) && decimal_number(digits) <= u32::MAX {
        Some(decimal_number(digits) as u32)
    } else {
        None
    }
}

/// The value of a prefix of the digits never exceeds the value of all of them.
pub proof fn lemma_decimal_number_prefix(digits: Seq<char>, k: int)
    requires
        0 <= k <= digits.len(),
    ensures
        decimal_number(digits.take(k)) <= decimal_number(digits),
    decreases digits.len() - k,
{
    if k < digits.len() {
        lemma_decimal_number_prefix(digits, k + 1);
        assert(digits.take(k + 1).drop_last() =~= digits.take(k));
    } else {
        assert(digits.take(k) =~= digits);
    }
}

/// Reads a baud rate written in decimal.
pub fn parse_baud(text: &str) -> (baud: Option<u32>)
    ensures
        baud == baud_value(text@),
{
    let chars = crate::utils::chars_of(text);
    let len: usize = chars.len();
    let mut i: usize = 0;
    if len > 0 && chars[0] == '+' {
        i = 1;
    }
    let ghost digits = chars@.skip(i as int);
    assert(digits =~= after_sign(text@));
    if i == len {
        return None;
    }
    let start: usize = i;
    let mut acc: u64 = 0;
    while i < len
        invariant
            start <= i <= len,
            len == chars@.len(),
            chars@ == text@,
            digits == chars@.skip(start as int),
            digits == after_sign(text@),
            digits.len() > 0,
            all_decimal(digits.take(i - start)),
            acc == decimal_number(digits.take(i - start)),
            acc <= u32::MAX,
        decreases len - i,
    {
        let ghost seen = digits.take(i - start);
        let ghost next = digits.take(i - start + 1);
        assert(next.drop_last() =~= seen);
        assert(next.last() == chars@[i as int]);
        let n: u32 = chars[i] as u32;
        if !(0x30 <= n && n <= 0x39) {
            assert(digits[i - start] == chars@[i as int]);
            assert(!all_decimal(digits));
            return None;
        }
        let wider: u64 = acc * 10 + (n - 0x30) as u64;
        assert(wider == decimal_number(next));
        if wider > u32::MAX as u64 {
            proof {
                lemma_decimal_number_prefix(digits, i - start + 1);
            }
            return None;
        }
        acc = wider;
        assert forall|k: int| 0 <= k < next.len() implies decimal_digit(#[trigger] next[k])
            is Some by {
            if k < seen.len() {
                assert(next[k] == seen[k]);
            }
        }
        i += 1;
    }
    assert(digits.take(i - start) =~= digits);
    Some(acc as u32)
}

/// The baud rate to open with, given the selection and the custom text.
pub open spec fn resolved_baud(selected: u32, custom: Seq<char>) -> Result<u32, ConfigError> {
    if selected != CUSTOM_BAUD {
        Ok(selected)
    } else {
        match baud_value(custom) {
            Some(b) => if b > 0 {
                Ok(b)
            } else {
                Err(ConfigError::BaudZero)
            },
            None => Err(ConfigError::BaudNotANumber),
        }
    }
}

/// Settles the baud rate: a preset is taken as it is; the selection
/// `CUSTOM_BAUD` asks for the custom text, which must write a positive number.
pub fn resolve_baud(selected: u32, custom: &str) -> (baud: Result<u32, ConfigError>)
    ensures
        baud == resolved_baud(selected, custom@),
        baud is Ok ==> baud->Ok_0 > 0,
{
    if selected != CUSTOM_BAUD {
        return Ok(selected);
    }
    match parse_baud(custom) {
        Some(b) => {
            if b > 0 {
                Ok(b)
            } else {
                Err(ConfigError::BaudZero)
            }
        },
        None => Err(ConfigError::BaudNotANumber),
    }
}

/// `name` is one of the device names in `listed`.
pub open spec fn is_listed(listed: Seq<String>, name: Seq<char>) -> bool {
    exists|i: int| 0 <= i < listed.len() && (#[trigger] listed[i])@ == name
}

/// Whether `name` is among the device names found.
pub fn port_listed(listed: &[String], name: &str) -> (found: bool)
    ensures
        found == is_listed(listed@, name@),
{
    let wanted = crate::utils::chars_of(name);
    let mut i: usize = 0;
    while i < listed.len()
        invariant
            i <= listed.len(),
            wanted@ == name@,
            forall|k: int| 0 <= k < i ==> (#[trigger] listed@[k])@ != name@,
        decreases listed.len() - i,
    {
        let candidate = crate::utils::chars_of(listed[i].as_str());
        if same_chars(candidate.as_slice(), wanted.as_slice()) {
            return true;
        }
        i += 1;
    }
    false
}

/// Whether two runs of characters are equal.
pub fn same_chars(a: &[char], b: &[char]) -> (same: bool)
    ensures
        same == (a@ == b@),
{
    if a.len() != b.len() {
        return false;
    }
    let mut i: usize = 0;
    while i < a.len()
        invariant
            i <= a.len(),
            a.len() == b.len(),
            forall|k: int| 0 <= k < i ==> a@[k] == b@[k],
        decreases a.len() - i,
    {
        if a[i] != b[i] {
            return false;
        }
        i += 1;
    }
    assert(a@ =~= b@);
    true
}

/// The outcome of the checks made before a serial port is opened.
pub open spec fn open_check(
    port: Seq<char>,
    selected_baud: u32,
    custom_baud: Seq<char>,
    listed: Seq<String>,
) -> Result<u32, ConfigError> {
    if port.len() == 0 {
        Err(ConfigError::NoPortSelected)
    } else if resolved_baud(selected_baud, custom_baud) is Err {
        resolved_baud(selected_baud, custom_baud)
    } else if !is_listed(listed, port) {
        Err(ConfigError::PortNotListed)
    } else {
        resolved_baud(selected_baud, custom_baud)
    }
}

/// Checks a request to open the serial device `port`, and settles the baud
/// rate to open it with.
///
/// The checks are made in this order, and the first that fails decides the
/// error: a device must be chosen; the baud rate must be a preset or a
/// positive custom number; the device must be among `listed`, the devices
/// found just now.
pub fn check_open(port: &str, selected_baud: u32, custom_baud: &str, listed: &[String]) -> (baud:
    Result<u32, ConfigError>)
    ensures
        baud == open_check(port@, selected_baud, custom_baud@, listed@),
        baud is Ok ==> baud->Ok_0 > 0,
{
    if port.is_empty() {
        return Err(ConfigError::NoPortSelected);
    }
    let baud = resolve_baud(selected_baud, custom_baud)?;
    if !port_listed(listed, port) {
        return Err(ConfigError::PortNotListed);
    }
    Ok(baud)
}

} // verus!
