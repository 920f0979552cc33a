//! Reading the firmware metadata that the OTA server's `/dfu/info` endpoint
//! returns, e.g. `{"size":100,"checksum":12345,"version":"2.0.0"}`.
//!
//! The device has no JSON library: a value is found by searching for
//! `"key":` and reading what follows it. Everything works on the UTF-8 bytes
//! of the text; since every pattern is valid UTF-8, a byte-level match always
//! starts and ends on character boundaries.

use vstd::prelude::*;
use vstd::string::StringSliceAdditionalSpecFns;
use vstd::utf8::*;
use crate::ota::OtaError;
use crate::ota::url::{decimal, digits};

verus! {

broadcast use vstd::utf8::group_utf8_lib;

/// Byte `"`.
pub open spec fn quote() -> u8 {
    34u8
}

/// Whether a byte is an ASCII decimal digit.
pub open spec fn is_digit(b: u8) -> bool {
    48 <= b <= 57
}

/// `pat` occurs in `hay` starting at index `i`.
pub open spec fn occurs_at(hay: Seq<u8>, pat: Seq<u8>, i: int) -> bool {
    &&& 0 <= i
    &&& i + pat.len() <= hay.len()
    &&& forall|k: int| 0 <= k < pat.len() ==> hay[i + k] == #[trigger] pat[k]
}

/// Index of the first occurrence of `pat` in `hay` at or after `from`.
pub open spec fn find_from(hay: Seq<u8>, pat: Seq<u8>, from: nat) -> Option<int>
    decreases hay.len() - from,
{
    if from + pat.len() > hay.len() {
        None
    } else if occurs_at(hay, pat, from as int) {
        Some(from as int)
    } else {
        find_from(hay, pat, from + 1)
    }
}

/// Index of the first occurrence of `pat` in `hay`.
pub open spec fn find(hay: Seq<u8>, pat: Seq<u8>) -> Option<int> {
    find_from(hay, pat, 0)
}

/// Index of the first byte at or after `from` that is not a decimal digit.
pub open spec fn non_digit_from(s: Seq<u8>, from: nat) -> Option<int>
    decreases s.len() - from,
{
    if from >= s.len() {
        None
    } else if !is_digit(s[from as int]) {
        Some(from as int)
    } else {
        non_digit_from(s, from + 1)
    }
}

/// Index of the first byte at or after `from` that is `b`.
pub open spec fn byte_from(s: Seq<u8>, b: u8, from: nat) -> Option<int>
    decreases s.len() - from,
{
    if from >= s.len() {
        None
    } else if s[from as int] == b {
        Some(from as int)
    } else {
        byte_from(s, b, from + 1)
    }
}

/// The number written by a string of decimal digits.
pub open spec fn digits_value(s: Seq<u8>) -> nat
    decreases s.len(),
{
    if s.len() == 0 {
        0
    } else {
        digits_value(s.drop_last()) * 10 + (s.last() - 48) as nat
    }
}

/// The pattern `"key":` that precedes a number.
pub open spec fn number_pattern(key: Seq<u8>) -> Seq<u8> {
    seq![quote()] + key + seq![quote(), 58u8]
}

/// The pattern `"key":"` that precedes a string.
pub open spec fn string_pattern(key: Seq<u8>) -> Seq<u8> {
    seq![quote()] + key + seq![quote(), 58u8, quote()]
}

/// The `u32` that follows the first `"key":` in `json`: a non-empty run of
/// digits that some other byte ends and whose value fits in 32 bits.
pub open spec fn json_u32(json: Seq<u8>, key: Seq<u8>) -> Option<u32> {
    let pat = number_pattern(key);
    match find(json, pat) {
        None => None,
        Some(p) => {
            let rest = json.subrange(p + pat.len(), json.len() as int);
            match non_digit_from(rest, 0) {
                None => None,
                Some(e) => if e == 0 || digits_value(rest.subrange(0, e)) > u32::MAX {
                    None
                } else {
                    Some(digits_value(rest.subrange(0, e)) as u32)
                },
            }
        },
    }
}

/// The text between the first `"key":"` in `json` and the next `"`.
pub open spec fn json_string(json: Seq<u8>, key: Seq<u8>) -> Option<Seq<u8>> {
    let pat = string_pattern(key);
    match find(json, pat) {
        None => None,
        Some(p) => {
            let rest = json.subrange(p + pat.len(), json.len() as int);
            match byte_from(rest, quote(), 0) {
                None => None,
                Some(e) => Some(rest.subrange(0, e)),
            }
        },
    }
}

/// The key `size`.
pub open spec fn size_key() -> Seq<u8> {
    seq![115u8, 105u8, 122u8, 101u8]
}

/// The key `checksum`.
pub open spec fn checksum_key() -> Seq<u8> {
    seq![99u8, 104u8, 101u8, 99u8, 107u8, 115u8, 117u8, 109u8]
}

/// The key `version`.
pub open spec fn version_key() -> Seq<u8> {
    seq![118u8, 101u8, 114u8, 115u8, 105u8, 111u8, 110u8]
}

/// What `parse_firmware_info` makes of `json`: size, checksum and version,
/// or the error it reports. A missing version reads as empty.
pub open spec fn firmware_info_of(json: Seq<u8>) -> Result<(u32, u32, Seq<u8>), OtaError> {
    match json_u32(json, size_key()) {
        None => Err(OtaError::InvalidFirmware),
        Some(size) => match json_u32(json, checksum_key()) {
            None => Err(OtaError::InvalidFirmware),
            Some(checksum) => Ok(
                (
                    size,
                    checksum,
                    match json_string(json, version_key()) {
                        Some(v) => v,
                        None => Seq::empty(),
                    },
                ),
            ),
        },
    }
}

/// Firmware metadata from the `/dfu/info` endpoint.
#[derive(Debug)]
pub struct FirmwareInfo {
    /// Firmware size in bytes.
    pub size: u32,
    /// CRC32 checksum.
    pub checksum: u32,
    /// Target version string.
    pub version: Vec<u8>,
}

// ---------------------------------------------------------------------------
// Searching
// ---------------------------------------------------------------------------

/// Whether `pat` occurs in `hay` at index `i`.
fn matches_at(hay: &[u8], pat: &[u8], i: usize) -> (r: bool)
    requires
        i + pat@.len() <= hay@.len(),
    ensures
        r == occurs_at(hay@, pat@, i as int),
{
    let n: usize = hay.len();
    let mut j: usize = 0;
    while j < pat.len()
        invariant
            n == hay@.len(),
            i + pat@.len() <= hay@.len(),
            j <= pat@.len(),
            forall|k: int| 0 <= k < j ==> hay@[i + k] == #[trigger] pat@[k],
        decreases pat@.len() - j,
    {
        if hay[i + j] != pat[j] {
            assert(!(hay@[i + j as int] == pat@[j as int]));
            return false;
        }
        j = j + 1;
    }
    true
}

/// Index of the first occurrence of `pat` in `hay`.
pub fn find_bytes(hay: &[u8], pat: &[u8]) -> (r: Option<usize>)
    ensures
        r matches Some(i) ==> find(hay@, pat@) == Some(i as int),
        r is None ==> find(hay@, pat@) is None,
{
    if pat.len() > hay.len() {
        return None;
    }
    let mut i: usize = 0;
    while i <= hay.len() - pat.len()
        invariant
            pat@.len() <= hay@.len(),
            i <= hay@.len() - pat@.len() + 1,
            find_from(hay@, pat@, 0) == find_from(hay@, pat@, i as nat),
        decreases hay@.len() - pat@.len() + 1 - i,
    {
        if matches_at(hay, pat, i) {
            return Some(i);
        }
        i = i + 1;
    }
    None
}

/// Index of the first byte at or after `from` that is not a decimal digit.
fn find_non_digit(s: &[u8], from: usize) -> (r: Option<usize>)
    requires
        from <= s@.len(),
    ensures
        r matches Some(i) ==> non_digit_from(s@, from as nat) == Some(i as int),
        r is None ==> non_digit_from(s@, from as nat) is None,
{
    let mut i: usize = from;
    while i < s.len()
        invariant
            from <= i <= s@.len(),
            non_digit_from(s@, from as nat) == non_digit_from(s@, i as nat),
        decreases s@.len() - i,
    {
        if !(48 <= s[i] && s[i] <= 57) {
            return Some(i);
        }
        i = i + 1;
    }
    None
}

/// Index of the first byte at or after `from` that is `b`.
fn find_byte(s: &[u8], b: u8, from: usize) -> (r: Option<usize>)
    requires
        from <= s@.len(),
    ensures
        r matches Some(i) ==> byte_from(s@, b, from as nat) == Some(i as int),
        r is None ==> byte_from(s@, b, from as nat) is None,
{
    let mut i: usize = from;
    while i < s.len()
        invariant
            from <= i <= s@.len(),
            byte_from(s@, b, from as nat) == byte_from(s@, b, i as nat),
        decreases s@.len() - i,
    {
        if s[i] == b {
            return Some(i);
        }
        i = i + 1;
    }
    None
}

/// A search result lies inside the searched range.
proof fn lemma_non_digit_bounds(s: Seq<u8>, from: nat)
    ensures
        non_digit_from(s, from) matches Some(i) ==> from <= i < s.len() && !is_digit(s[i])
            && forall|k: int| from <= k < i ==> is_digit(#[trigger] s[k]),
    decreases s.len() - from,
{
    if from < s.len() {
        lemma_non_digit_bounds(s, from + 1);
    }
}

/// A search result lies inside the searched range.
proof fn lemma_byte_from_bounds(s: Seq<u8>, b: u8, from: nat)
    ensures
        byte_from(s, b, from) matches Some(i) ==> from <= i < s.len() && s[i] == b
            && forall|k: int| from <= k < i ==> #[trigger] s[k] != b,
    decreases s.len() - from,
{
    if from < s.len() {
        lemma_byte_from_bounds(s, b, from + 1);
    }
}

/// A search result lies inside the searched range and is an occurrence.
proof fn lemma_find_from_bounds(hay: Seq<u8>, pat: Seq<u8>, from: nat)
    ensures
        find_from(hay, pat, from) matches Some(i) ==> from <= i && occurs_at(hay, pat, i),
    decreases hay.len() - from,
{
    if from + pat.len() <= hay.len() && !occurs_at(hay, pat, from as int) {
        lemma_find_from_bounds(hay, pat, from + 1);
    }
}

// ---------------------------------------------------------------------------
// Reading numbers
// ---------------------------------------------------------------------------

/// One more digit multiplies the value by ten and adds the digit.
proof fn lemma_digits_value_push(s: Seq<u8>, i: int)
    requires
        0 <= i < s.len(),
    ensures
        digits_value(s.subrange(0, i + 1)) == digits_value(s.subrange(0, i)) * 10 + (s[i]
            - 48) as nat,
{
    assert(s.subrange(0, i + 1).drop_last() =~= s.subrange(0, i));
}

/// Value of the digits `s[from..to]`, or `None` when it exceeds `u32::MAX`.
fn digits_u32(s: &[u8], from: usize, to: usize) -> (r: Option<u32>)
    requires
        from <= to <= s@.len(),
        forall|k: int| from <= k < to ==> is_digit(#[trigger] s@[k]),
    ensures
        r matches Some(v) ==> v == digits_value(s@.subrange(from as int, to as int)),
        r is None <==> digits_value(s@.subrange(from as int, to as int)) > u32::MAX,
{
    let ghost d = s@.subrange(from as int, to as int);
    let mut value: u64 = 0;
    let mut over: bool = false;
    let mut i: usize = from;
    while i < to
        invariant
            from <= i <= to <= s@.len(),
            d == s@.subrange(from as int, to as int),
            forall|k: int| from <= k < to ==> is_digit(#[trigger] s@[k]),
            over ==> digits_value(d.subrange(0, i - from)) > u32::MAX,
            !over ==> value == digits_value(d.subrange(0, i - from)),
            !over ==> value <= u32::MAX,
        decreases to - i,
    {
        proof {
            lemma_digits_value_push(d, i - from);
            assert(d[i - from] == s@[i as int]);
            assert(is_digit(s@[i as int]));
        }
        if !over {
            let next: u64 = value * 10 + (s[i] - 48) as u64;
            if next > 4294967295u64 {
                over = true;
            } else {
                value = next;
            }
        }
        i = i + 1;
    }
    assert(d.subrange(0, to - from) =~= d);
    if over {
        None
    } else {
        Some(value as u32)
    }
}

/// Builds `"key":`, and with `open_string` also the opening quote of a string value.
fn key_pattern(key: &str, open_string: bool) -> (pat: Vec<u8>)
    ensures
        !open_string ==> pat@ == number_pattern(key.spec_bytes()),
        open_string ==> pat@ == string_pattern(key.spec_bytes()),
{
    let kb: &[u8] = key.as_bytes();
    let mut pat: Vec<u8> = Vec::new();
    pat.push(34u8);
    let mut i: usize = 0;
    while i < kb.len()
        invariant
            i <= kb@.len(),
            kb@ == key.spec_bytes(),
            pat@ == seq![quote()] + kb@.subrange(0, i as int),
        decreases kb@.len() - i,
    {
        pat.push(kb[i]);
        assert(kb@.subrange(0, i + 1) =~= kb@.subrange(0, i as int).push(kb@[i as int]));
        i = i + 1;
    }
    assert(kb@.subrange(0, kb@.len() as int) =~= kb@);
    pat.push(34u8);
    pat.push(58u8);
    if open_string {
        pat.push(34u8);
    }
    assert(!open_string ==> pat@ =~= number_pattern(key.spec_bytes()));
    assert(open_string ==> pat@ =~= string_pattern(key.spec_bytes()));
    pat
}

/// Extracts the `u32` value of `key` from a flat JSON object.
///
/// The value is the run of digits right after the first `"key":`; it must be
/// followed by some other character and fit in 32 bits.
pub fn extract_json_u32(json: &str, key: &str) -> (r: Option<u32>)
    ensures
        r == json_u32(json.spec_bytes(), key.spec_bytes()),
{
    let bytes: &[u8] = json.as_bytes();
    let pat: Vec<u8> = key_pattern(key, false);
    let found: Option<usize> = find_bytes(bytes, pat.as_slice());
    let p: usize = match found {
        None => return None,
        Some(p) => p,
    };
    let n: usize = bytes.len();
    proof {
        lemma_find_from_bounds(bytes@, pat@, 0);
    }
    let start: usize = p + pat.len();
    let ghost rest = bytes@.subrange(start as int, bytes@.len() as int);
    let end: usize = match find_non_digit(bytes, start) {
        None => {
            proof {
                lemma_shift_non_digit(bytes@, start as nat, start as nat);
            }
            return None;
        },
        Some(e) => e,
    };
    proof {
        lemma_shift_non_digit(bytes@, start as nat, start as nat);
        lemma_non_digit_bounds(bytes@, start as nat);
        assert(rest.subrange(0, end - start) =~= bytes@.subrange(start as int, end as int));
    }
    if end == start {
        return None;
    }
    digits_u32(bytes, start, end)
}

/// Searching a suffix for a non-digit gives the index shifted by the suffix's start.
proof fn lemma_shift_non_digit(s: Seq<u8>, start: nat, from: nat)
    requires
        start <= from <= s.len(),
    ensures
        non_digit_from(s.subrange(start as int, s.len() as int), (from - start) as nat) == (
        match non_digit_from(s, from) {
            Some(i) => Some(i - start),
            None => None,
        }),
    decreases s.len() - from,
{
    let rest = s.subrange(start as int, s.len() as int);
    if from < s.len() {
        assert(rest[from - start] == s[from as int]);
        lemma_shift_non_digit(s, start, from + 1);
    }
}

/// Searching a suffix for a byte gives the index shifted by the suffix's start.
proof fn lemma_shift_byte(s: Seq<u8>, b: u8, start: nat, from: nat)
    requires
        start <= from <= s.len(),
    ensures
        byte_from(s.subrange(start as int, s.len() as int), b, (from - start) as nat) == (
        match byte_from(s, b, from) {
            Some(i) => Some(i - start),
            None => None,
        }),
    decreases s.len() - from,
{
    let rest = s.subrange(start as int, s.len() as int);
    if from < s.len() {
        assert(rest[from - start] == s[from as int]);
        lemma_shift_byte(s, b, start, from + 1);
    }
}

// ---------------------------------------------------------------------------
// Reading strings
// ---------------------------------------------------------------------------

/// In valid UTF-8, the index right after an ASCII byte is a character boundary.
proof fn lemma_boundary_after_ascii(bytes: Seq<u8>, i: int)
    requires
        valid_utf8(bytes),
        0 < i <= bytes.len(),
        bytes[i - 1] < 128,
    ensures
        is_char_boundary(bytes, i),
    decreases bytes.len(),
{
    let n = length_of_first_scalar(bytes);
    if i < n {
        // bytes[i - 1] lies inside the first scalar's encoding
        if i - 1 == 0 {
            assert(is_leading_byte_width_1(bytes[0]));
        } else {
            assert(is_continuation_byte(bytes[i - 1]));
        }
    } else if i == n {
        assert(is_char_boundary(pop_first_scalar(bytes), 0));
    } else {
        let rest = pop_first_scalar(bytes);
        assert(rest[i - n - 1] == bytes[i - 1]);
        lemma_boundary_after_ascii(rest, i - n);
    }
}

/// Extracts the string value of `key` from a flat JSON object: the text
/// between the first `"key":"` and the next `"`.
pub fn extract_json_string<'a>(json: &'a str, key: &str) -> (r: Option<&'a str>)
    ensures
        r matches Some(s) ==> json_string(json.spec_bytes(), key.spec_bytes()) == Some(
            s.spec_bytes(),
        ),
        r is None ==> json_string(json.spec_bytes(), key.spec_bytes()) is None,
{
    let bytes: &[u8] = json.as_bytes();
    let pat: Vec<u8> = key_pattern(key, true);
    let p: usize = match find_bytes(bytes, pat.as_slice()) {
        None => return None,
        Some(p) => p,
    };
    let n: usize = bytes.len();
    proof {
        lemma_find_from_bounds(bytes@, pat@, 0);
    }
    let start: usize = p + pat.len();
    let ghost rest = bytes@.subrange(start as int, bytes@.len() as int);
    let end: usize = match find_byte(bytes, 34u8, start) {
        None => {
            proof {
                lemma_shift_byte(bytes@, quote(), start as nat, start as nat);
            }
            return None;
        },
        Some(e) => e,
    };
    proof {
        lemma_shift_byte(bytes@, quote(), start as nat, start as nat);
        lemma_byte_from_bounds(bytes@, quote(), start as nat);
        encode_utf8_valid_utf8(json@);
        assert(bytes@[start - 1] == pat@[pat@.len() - 1]);
        lemma_boundary_after_ascii(bytes@, start as int);
    }
    let (_, tail) = json.split_at(start);
    proof {
        encode_utf8_valid_utf8(tail@);
        assert(tail.spec_bytes()[end - start] == quote());
        is_char_boundary_iff_not_is_continuation_byte(tail.spec_bytes(), end - start);
    }
    let (value, _) = tail.split_at(end - start);
    assert(value.spec_bytes() =~= rest.subrange(0, end - start));
    Some(value)
}

/// Parses the firmware info JSON response.
///
/// Expected format: `{"size":100,"checksum":12345,"version":"2.0.0"}`.
/// Size and checksum are required; a missing version reads as empty.
pub fn parse_firmware_info(json: &str) -> (r: Result<FirmwareInfo, OtaError>)
    ensures
        match r {
            Ok(info) => firmware_info_of(json.spec_bytes()) == Ok::<(u32, u32, Seq<u8>), OtaError>(
                (info.size, info.checksum, info.version@),
            ),
            Err(e) => firmware_info_of(json.spec_bytes()) == Err::<(u32, u32, Seq<u8>), OtaError>(
                e,
            ),
        },
{
    proof {
        reveal_strlit("size");
        reveal_strlit("checksum");
        reveal_strlit("version");
        vstd::string::is_ascii_spec_bytes("size");
        vstd::string::is_ascii_spec_bytes("checksum");
        vstd::string::is_ascii_spec_bytes("version");
        assert("size".spec_bytes() =~= size_key());
        assert("checksum".spec_bytes() =~= checksum_key());
        assert("version".spec_bytes() =~= version_key());
    }
    let size: u32 = match extract_json_u32(json, "size") {
        Some(v) => v,
        None => return Err(OtaError::InvalidFirmware),
    };
    let checksum: u32 = match extract_json_u32(json, "checksum") {
        Some(v) => v,
        None => return Err(OtaError::InvalidFirmware),
    };
    let version: Vec<u8> = match extract_json_string(json, "version") {
        Some(s) => vstd::slice::slice_to_vec(s.as_bytes()),
        None => Vec::new(),
    };
    Ok(FirmwareInfo { size, checksum, version })
}

// ---------------------------------------------------------------------------
// The server's format reads back
// ---------------------------------------------------------------------------

/// The body that the OTA server's `/dfu/info` endpoint sends:
/// `{"size":<size>,"checksum":<checksum>,"version":"<version>"}`.
pub open spec fn info_json(size: u32, checksum: u32, version: Seq<u8>) -> Seq<u8> {
    seq![123u8] + number_pattern(size_key()) + decimal(size as nat) + seq![44u8] + number_pattern(
        checksum_key(),
    ) + decimal(checksum as nat) + seq![44u8] + string_pattern(version_key()) + version + seq![
        quote(),
        125u8,
    ]
}

/// The decimal text of a number is a non-empty run of digits that reads
/// back as the number.
pub proof fn lemma_decimal_reads_back(n: nat)
    ensures
        decimal(n).len() >= 1,
        forall|i: int| 0 <= i < decimal(n).len() ==> is_digit(#[trigger] decimal(n)[i]),
        digits_value(decimal(n)) == n,
{
    if n == 0 {
        assert(decimal(0).drop_last() =~= Seq::<u8>::empty());
        assert(digits_value(Seq::<u8>::empty()) == 0);
    } else {
        lemma_digits_reads_back(n);
    }
}

proof fn lemma_digits_reads_back(n: nat)
    ensures
        n > 0 ==> digits(n).len() >= 1,
        forall|i: int| 0 <= i < digits(n).len() ==> is_digit(#[trigger] digits(n)[i]),
        digits_value(digits(n)) == n,
    decreases n,
{
    if n > 0 {
        lemma_digits_reads_back(n / 10);
        assert(digits(n).drop_last() =~= digits(n / 10));
    }
}

/// The first occurrence is at `k` when `pat` occurs there and nowhere before.
proof fn lemma_find_first(hay: Seq<u8>, pat: Seq<u8>, i: nat, k: nat)
    requires
        i <= k,
        occurs_at(hay, pat, k as int),
        forall|j: int| i <= j < k ==> !occurs_at(hay, pat, j),
    ensures
        find_from(hay, pat, i) == Some(k as int),
    decreases k - i,
{
    if i < k {
        assert(!occurs_at(hay, pat, i as int));
        lemma_find_first(hay, pat, i + 1, k);
    }
}

/// A pattern that opens with a quote cannot start at a quote that the
/// pattern's second byte does not follow.
proof fn lemma_no_quote_start(hay: Seq<u8>, pat: Seq<u8>, k: int)
    requires
        pat.len() >= 2,
        pat[0] == quote(),
        0 <= k <= hay.len(),
        forall|j: int| 0 <= j < k && #[trigger] hay[j] == quote() ==> j + 1 < hay.len() && hay[j + 1] != pat[1],
    ensures
        forall|j: int| 0 <= j < k ==> !occurs_at(hay, pat, j),
{
    assert forall|j: int| 0 <= j < k implies !occurs_at(hay, pat, j) by {
        if occurs_at(hay, pat, j) {
            assert(hay[j + 0] == pat[0]);
            assert(hay[j + 1] == pat[1]);
        }
    }
}

/// A run of `n` digits followed by a non-digit ends at `n`.
proof fn lemma_digit_run(s: Seq<u8>, n: nat, from: nat)
    requires
        from <= n < s.len(),
        forall|i: int| 0 <= i < n ==> is_digit(#[trigger] s[i]),
        !is_digit(s[n as int]),
    ensures
        non_digit_from(s, from) == Some(n as int),
    decreases n - from,
{
    if from < n {
        assert(is_digit(s[from as int]));
        lemma_digit_run(s, n, from + 1);
    }
}

/// A run of `n` bytes other than `b` followed by `b` ends at `n`.
proof fn lemma_byte_run(s: Seq<u8>, b: u8, n: nat, from: nat)
    requires
        from <= n < s.len(),
        forall|i: int| 0 <= i < n ==> #[trigger] s[i] != b,
        s[n as int] == b,
    ensures
        byte_from(s, b, from) == Some(n as int),
    decreases n - from,
{
    if from < n {
        assert(s[from as int] != b);
        lemma_byte_run(s, b, n, from + 1);
    }
}

/// Reading a number whose pattern first occurs at `p`, followed by the
/// decimal text of `v` and a comma.
proof fn lemma_read_number(json: Seq<u8>, key: Seq<u8>, p: int, v: u32)
    requires
        find(json, number_pattern(key)) == Some(p),
        0 <= p,
        p + number_pattern(key).len() + decimal(v as nat).len() < json.len(),
        json.subrange(
            p + number_pattern(key).len(),
            p + number_pattern(key).len() + decimal(v as nat).len(),
        ) == decimal(v as nat),
        json[p + number_pattern(key).len() + decimal(v as nat).len()] == 44u8,
    ensures
        json_u32(json, key) == Some(v),
{
    let pat = number_pattern(key);
    let d = decimal(v as nat);
    let rest = json.subrange(p + pat.len(), json.len() as int);
    lemma_decimal_reads_back(v as nat);
    assert forall|i: int| 0 <= i < d.len() implies is_digit(#[trigger] rest[i]) by {
        assert(rest[i] == d[i]);
    }
    assert(rest[d.len() as int] == 44u8);
    lemma_digit_run(rest, d.len(), 0);
    assert(rest.subrange(0, d.len() as int) =~= d);
}

/// Where each part of the server's firmware info body stands.
proof fn lemma_info_json_layout(size: u32, checksum: u32, version: Seq<u8>)
    ensures
        ({
            let json = info_json(size, checksum, version);
            let d1 = decimal(size as nat);
            let d2 = decimal(checksum as nat);
            let n1 = d1.len() as int;
            let n2 = d2.len() as int;
            let p2 = number_pattern(checksum_key());
            let p3 = string_pattern(version_key());
            &&& json.len() == 34 + n1 + n2 + version.len()
            &&& json.subrange(0, 8) == seq![123u8, 34u8, 115u8, 105u8, 122u8, 101u8, 34u8, 58u8]
            &&& json.subrange(8, 8 + n1) == d1
            &&& json[8 + n1] == 44u8
            &&& json.subrange(9 + n1, 20 + n1) == p2
            &&& json.subrange(20 + n1, 20 + n1 + n2) == d2
            &&& json[20 + n1 + n2] == 44u8
            &&& json.subrange(21 + n1 + n2, 32 + n1 + n2) == p3
            &&& json.subrange(32 + n1 + n2, json.len() as int) == version + seq![quote(), 125u8]
        }),
{
    let json = info_json(size, checksum, version);
    let p1 = number_pattern(size_key());
    let p2 = number_pattern(checksum_key());
    let p3 = string_pattern(version_key());
    let d1 = decimal(size as nat);
    let d2 = decimal(checksum as nat);
    let n1 = d1.len() as int;
    let n2 = d2.len() as int;
    assert(p1.len() == 7);
    assert(p2.len() == 11);
    assert(p3.len() == 11);
    let s0 = seq![123u8] + p1;
    let s1 = s0 + d1 + seq![44u8];
    let s2 = s1 + p2;
    let s3 = s2 + d2 + seq![44u8];
    let s4 = s3 + p3;
    assert(json == s4 + version + seq![quote(), 125u8]);
    assert(s0 =~= seq![123u8, 34u8, 115u8, 105u8, 122u8, 101u8, 34u8, 58u8]);
    assert(json.subrange(0, 8) =~= s0);
    assert(json.subrange(8, 8 + n1) =~= d1);
    assert(json.subrange(9 + n1, 20 + n1) =~= p2);
    assert(json.subrange(20 + n1, 20 + n1 + n2) =~= d2);
    assert(json.subrange(21 + n1 + n2, 32 + n1 + n2) =~= p3);
    assert(json.subrange(32 + n1 + n2, json.len() as int) =~= version + seq![quote(), 125u8]);
}

/// Byte facts of the server's body, read off its layout.
proof fn lemma_info_json_bytes(size: u32, checksum: u32, version: Seq<u8>)
    ensures
        ({
            let json = info_json(size, checksum, version);
            let d1 = decimal(size as nat);
            let d2 = decimal(checksum as nat);
            let n1 = d1.len() as int;
            let n2 = d2.len() as int;
            &&& forall|j: int| 0 <= j < 7 ==> json[1 + j] == #[trigger] number_pattern(size_key())[j]
            &&& forall|j: int| 0 <= j < 11 ==> json[9 + n1 + j] == #[trigger] number_pattern(
                checksum_key(),
            )[j]
            &&& forall|j: int| 0 <= j < 11 ==> json[21 + n1 + n2 + j] == #[trigger] string_pattern(
                version_key(),
            )[j]
            &&& forall|j: int|
                0 <= j < 21 + n1 + n2 && #[trigger] json[j] == quote() ==> j == 1 || j == 6 || j == 9
                    + n1 || j == 18 + n1
            &&& json[0] == 123u8
            &&& json[2] == 115u8
            &&& json[7] == 58u8
            &&& json[10 + n1] == 99u8
            &&& json[19 + n1] == 58u8
        }),
{
    let json = info_json(size, checksum, version);
    let p1 = number_pattern(size_key());
    let p2 = number_pattern(checksum_key());
    let p3 = string_pattern(version_key());
    let d1 = decimal(size as nat);
    let d2 = decimal(checksum as nat);
    let n1 = d1.len() as int;
    let n2 = d2.len() as int;
    lemma_info_json_layout(size, checksum, version);
    lemma_decimal_reads_back(size as nat);
    lemma_decimal_reads_back(checksum as nat);
    assert(p1 =~= seq![34u8, 115u8, 105u8, 122u8, 101u8, 34u8, 58u8]);
    assert(p2 =~= seq![34u8, 99u8, 104u8, 101u8, 99u8, 107u8, 115u8, 117u8, 109u8, 34u8, 58u8]);
    assert(p3 =~= seq![34u8, 118u8, 101u8, 114u8, 115u8, 105u8, 111u8, 110u8, 34u8, 58u8, 34u8]);
    let head = json.subrange(0, 8);
    let mid = json.subrange(9 + n1, 20 + n1);
    let tail3 = json.subrange(21 + n1 + n2, 32 + n1 + n2);
    assert forall|j: int| 0 <= j < 8 implies json[j] == #[trigger] head[j] by {}
    assert forall|j: int| 0 <= j < 11 implies json[9 + n1 + j] == #[trigger] mid[j] by {}
    assert forall|j: int| 0 <= j < 11 implies json[21 + n1 + n2 + j] == #[trigger] tail3[j] by {}
    assert forall|j: int| 0 <= j < 7 implies json[1 + j] == #[trigger] p1[j] by {
        assert(json[1 + j] == head[1 + j]);
    }
    assert forall|j: int|
        0 <= j < 21 + n1 + n2 && #[trigger] json[j] == quote() implies j == 1 || j == 6 || j == 9
        + n1 || j == 18 + n1 by {
        if j < 8 {
            assert(json[j] == head[j]);
        } else if j < 8 + n1 {
            assert(json.subrange(8, 8 + n1)[j - 8] == json[j]);
            assert(is_digit(d1[j - 8]));
        } else if 9 + n1 <= j < 20 + n1 {
            assert(json[9 + n1 + (j - 9 - n1)] == mid[j - 9 - n1]);
        } else if 20 + n1 <= j < 20 + n1 + n2 {
            assert(json.subrange(20 + n1, 20 + n1 + n2)[j - 20 - n1] == json[j]);
            assert(is_digit(d2[j - 20 - n1]));
        }
    }
    assert(json[0] == head[0]);
    assert(json[2] == head[2]);
    assert(json[7] == head[7]);
    assert(json[10 + n1] == mid[1]);
    assert(json[19 + n1] == mid[10]);
}

/// In the server's body, `"size":` is followed by the size.
proof fn lemma_info_json_size(size: u32, checksum: u32, version: Seq<u8>)
    ensures
        json_u32(info_json(size, checksum, version), size_key()) == Some(size),
{
    let json = info_json(size, checksum, version);
    let p1 = number_pattern(size_key());
    lemma_info_json_layout(size, checksum, version);
    lemma_info_json_bytes(size, checksum, version);
    assert(p1.len() == 7);
    assert(p1[0] == quote());
    lemma_no_quote_start(json, p1, 1);
    lemma_find_first(json, p1, 0, 1);
    lemma_read_number(json, size_key(), 1, size);
}

/// In the server's body, `"checksum":` is followed by the checksum.
proof fn lemma_info_json_checksum(size: u32, checksum: u32, version: Seq<u8>)
    ensures
        json_u32(info_json(size, checksum, version), checksum_key()) == Some(checksum),
{
    let json = info_json(size, checksum, version);
    let p2 = number_pattern(checksum_key());
    let n1 = decimal(size as nat).len() as int;
    lemma_info_json_layout(size, checksum, version);
    lemma_info_json_bytes(size, checksum, version);
    assert(p2.len() == 11);
    assert(p2[0] == quote());
    assert(p2[1] == 99u8);
    lemma_no_quote_start(json, p2, 9 + n1);
    lemma_find_first(json, p2, 0, (9 + n1) as nat);
    lemma_read_number(json, checksum_key(), 9 + n1, checksum);
}

/// In the server's body, `"version":"` is followed by the version and a quote.
proof fn lemma_info_json_version(size: u32, checksum: u32, version: Seq<u8>)
    requires
        forall|i: int| 0 <= i < version.len() ==> #[trigger] version[i] != quote(),
    ensures
        json_string(info_json(size, checksum, version), version_key()) == Some(version),
{
    let json = info_json(size, checksum, version);
    let p3 = string_pattern(version_key());
    let n1 = decimal(size as nat).len() as int;
    let n2 = decimal(checksum as nat).len() as int;
    lemma_info_json_layout(size, checksum, version);
    lemma_info_json_bytes(size, checksum, version);
    assert(p3.len() == 11);
    assert(p3[0] == quote());
    assert(p3[1] == 118u8);
    lemma_no_quote_start(json, p3, 21 + n1 + n2);
    lemma_find_first(json, p3, 0, (21 + n1 + n2) as nat);
    let rest = json.subrange(32 + n1 + n2, json.len() as int);
    assert(rest =~= version + seq![quote(), 125u8]);
    assert forall|i: int| 0 <= i < version.len() implies #[trigger] rest[i] != quote() by {
        assert(rest[i] == version[i]);
    }
    assert(rest[version.len() as int] == quote());
    lemma_byte_run(rest, quote(), version.len(), 0);
    assert(rest.subrange(0, version.len() as int) =~= version);
}

/// The firmware info that the server sends reads back as the size,
/// checksum and version it was made from, whenever the version holds no `"`.
pub proof fn lemma_info_json_reads_back(size: u32, checksum: u32, version: Seq<u8>)
    requires
        forall|i: int| 0 <= i < version.len() ==> #[trigger] version[i] != quote(),
    ensures
        firmware_info_of(info_json(size, checksum, version)) == Ok::<(u32, u32, Seq<u8>), OtaError>(
            (size, checksum, version),
        ),
{
    lemma_info_json_size(size, checksum, version);
    lemma_info_json_checksum(size, checksum, version);
    lemma_info_json_version(size, checksum, version);
}

// ---------------------------------------------------------------------------
// What the readers find
// ---------------------------------------------------------------------------

/// `pat` occurs at `p` in `hay` and nowhere before.
pub open spec fn first_occurrence(hay: Seq<u8>, pat: Seq<u8>, p: int) -> bool {
    &&& occurs_at(hay, pat, p)
    &&& forall|j: int| 0 <= j < p ==> !occurs_at(hay, pat, j)
}

proof fn lemma_find_from_first(hay: Seq<u8>, pat: Seq<u8>, from: nat)
    ensures
        find_from(hay, pat, from) matches Some(i) ==> forall|j: int| from <= j < i ==> !occurs_at(
            hay,
            pat,
            j,
        ),
        find_from(hay, pat, from) is None ==> forall|j: int| from <= j ==> !occurs_at(hay, pat, j),
    decreases hay.len() - from,
{
    if from + pat.len() <= hay.len() && !occurs_at(hay, pat, from as int) {
        lemma_find_from_first(hay, pat, from + 1);
    }
}

/// The search finds the first occurrence: `find` gives `p` exactly when
/// `pat` occurs at `p` and nowhere before, and nothing exactly when `pat`
/// occurs nowhere.
pub proof fn lemma_find_means(hay: Seq<u8>, pat: Seq<u8>, p: int)
    ensures
        find(hay, pat) == Some(p) <==> first_occurrence(hay, pat, p),
        find(hay, pat) is None <==> forall|j: int| !occurs_at(hay, pat, j),
{
    lemma_find_from_bounds(hay, pat, 0);
    lemma_find_from_first(hay, pat, 0);
    if first_occurrence(hay, pat, p) {
        lemma_find_first(hay, pat, 0, p as nat);
    }
}

/// At `p` stands the first `"key":`, followed by a non-empty run of digits
/// that ends at `e` with some other byte.
pub open spec fn number_field(json: Seq<u8>, key: Seq<u8>, p: int, e: int) -> bool {
    let start = p + number_pattern(key).len();
    &&& first_occurrence(json, number_pattern(key), p)
    &&& start < e < json.len()
    &&& forall|k: int| start <= k < e ==> is_digit(#[trigger] json[k])
    &&& !is_digit(json[e])
}

/// What the number reader finds: a value exactly where the first
/// `"key":` is followed by a non-empty run of digits that some other byte
/// ends, the value those digits read as when it fits in 32 bits; and
/// nothing where the key does not occur.
pub proof fn lemma_json_u32_means(json: Seq<u8>, key: Seq<u8>, p: int, e: int)
    ensures
        json_u32(json, key) matches Some(v) ==> exists|q: int, f: int|
            #[trigger] number_field(json, key, q, f) && digits_value(
                json.subrange(q + number_pattern(key).len(), f),
            ) == v,
        number_field(json, key, p, e) ==> json_u32(json, key) == (if digits_value(
            json.subrange(p + number_pattern(key).len(), e),
        ) <= u32::MAX {
            Some(digits_value(json.subrange(p + number_pattern(key).len(), e)) as u32)
        } else {
            None
        }),
        (forall|j: int| !occurs_at(json, number_pattern(key), j)) ==> json_u32(json, key) is None,
{
    let pat = number_pattern(key);
    lemma_find_means(json, pat, p);
    match find(json, pat) {
        None => {},
        Some(q) => {
            lemma_find_means(json, pat, q);
            lemma_find_from_bounds(json, pat, 0);
            let start = q + pat.len();
            let rest = json.subrange(start, json.len() as int);
            lemma_non_digit_bounds(rest, 0);
            lemma_shift_non_digit(json, start as nat, start as nat);
            lemma_non_digit_bounds(json, start as nat);
            match non_digit_from(rest, 0) {
                None => {},
                Some(r) => {
                    assert(rest.subrange(0, r) =~= json.subrange(start, start + r));
                    if r != 0 {
                        assert(number_field(json, key, q, start + r));
                    }
                },
            }
            if number_field(json, key, p, e) {
                assert(q == p);
                let s = p + pat.len();
                assert forall|i: int| 0 <= i < e - s implies is_digit(#[trigger] rest[i]) by {
                    assert(rest[i] == json[s + i]);
                }
                assert(rest[e - s] == json[e]);
                lemma_digit_run(rest, (e - s) as nat, 0);
                assert(rest.subrange(0, e - s) =~= json.subrange(s, e));
            }
        },
    }
}

/// At `p` stands the first `"key":"`, and the next `"` after it is at `e`.
pub open spec fn string_field(json: Seq<u8>, key: Seq<u8>, p: int, e: int) -> bool {
    let start = p + string_pattern(key).len();
    &&& first_occurrence(json, string_pattern(key), p)
    &&& start <= e < json.len()
    &&& forall|k: int| start <= k < e ==> #[trigger] json[k] != quote()
    &&& json[e] == quote()
}

/// What the string reader finds: the text between the first `"key":"` and
/// the next `"`, exactly when both are there; nothing where the key does
/// not occur.
pub proof fn lemma_json_string_means(json: Seq<u8>, key: Seq<u8>, p: int, e: int)
    ensures
        json_string(json, key) matches Some(v) ==> exists|q: int, f: int|
            #[trigger] string_field(json, key, q, f) && v == json.subrange(
                q + string_pattern(key).len(),
                f,
            ),
        string_field(json, key, p, e) ==> json_string(json, key) == Some(
            json.subrange(p + string_pattern(key).len(), e),
        ),
        (forall|j: int| !occurs_at(json, string_pattern(key), j)) ==> json_string(json, key) is None,
{
    let pat = string_pattern(key);
    lemma_find_means(json, pat, p);
    match find(json, pat) {
        None => {},
        Some(q) => {
            lemma_find_means(json, pat, q);
            lemma_find_from_bounds(json, pat, 0);
            let start = q + pat.len();
            let rest = json.subrange(start, json.len() as int);
            lemma_byte_from_bounds(rest, quote(), 0);
            match byte_from(rest, quote(), 0) {
                None => {},
                Some(r) => {
                    assert(rest.subrange(0, r) =~= json.subrange(start, start + r));
                    assert forall|k: int| start <= k < start + r implies #[trigger] json[k] != quote() by {
                        assert(json[k] == rest[k - start]);
                    }
                    assert(string_field(json, key, q, start + r));
                },
            }
            if string_field(json, key, p, e) {
                assert(q == p);
                let s = p + pat.len();
                assert forall|i: int| 0 <= i < e - s implies #[trigger] rest[i] != quote() by {
                    assert(rest[i] == json[s + i]);
                }
                assert(rest[e - s] == json[e]);
                lemma_byte_run(rest, quote(), (e - s) as nat, 0);
                assert(rest.subrange(0, e - s) =~= json.subrange(s, e));
            }
        },
    }
}

/// The firmware info reader succeeds exactly when both numbers are found,
/// and then reports them with the version text, or an empty version where
/// there is none; every failure is `InvalidFirmware`.
pub proof fn lemma_firmware_info_means(json: Seq<u8>)
    ensures
        firmware_info_of(json) is Ok <==> json_u32(json, size_key()) is Some && json_u32(
            json,
            checksum_key(),
        ) is Some,
        firmware_info_of(json) matches Ok((size, checksum, version)) ==> {
            &&& json_u32(json, size_key()) == Some(size)
            &&& json_u32(json, checksum_key()) == Some(checksum)
            &&& json_string(json, version_key()) is Some ==> json_string(json, version_key()) == Some(
                version,
            )
            &&& json_string(json, version_key()) is None ==> version.len() == 0
        },
        firmware_info_of(json) matches Err(e) ==> e == OtaError::InvalidFirmware,
{
}

} // verus!
