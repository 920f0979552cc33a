//! Building the OTA server URL into a caller-provided byte buffer.

use vstd::prelude::*;
use vstd::string::StringSliceAdditionalSpecFns;
use crate::ota::json::{digits_value, is_digit, lemma_decimal_reads_back};

verus! {

/// Decimal digits of `n` without leading zeros; empty for zero.
pub open spec fn digits(n: nat) -> Seq<u8>
    decreases n,
{
    if n == 0 {
        Seq::empty()
    } else {
        digits(n / 10).push(((n % 10) + 48) as u8)
    }
}

/// Decimal text of `n`: its digits, or a single `0`.
pub open spec fn decimal(n: nat) -> Seq<u8> {
    if n == 0 {
        seq![48u8]
    } else {
        digits(n)
    }
}

/// Ten to the power `k`.
pub open spec fn pow10(k: nat) -> nat
    decreases k,
{
    if k == 0 {
        1
    } else {
        10 * pow10((k - 1) as nat)
    }
}

/// A number below `10^k` has at most `k` digits.
pub proof fn lemma_digits_len(n: nat, k: nat)
    requires
        n < pow10(k),
    ensures
        digits(n).len() <= k,
    decreases n,
{
    if n > 0 {
        assert(k > 0);
        lemma_digits_len(n / 10, (k - 1) as nat);
    }
}

/// The bytes `http://`.
pub open spec fn http_prefix() -> Seq<u8> {
    seq![104u8, 116u8, 116u8, 112u8, 58u8, 47u8, 47u8]
}

/// The URL `http://{host}:{port}{path}` as bytes.
pub open spec fn url_bytes(host: Seq<u8>, port: u16, path: Seq<u8>) -> Seq<u8> {
    http_prefix() + host + seq![58u8] + decimal(port as nat) + path
}

/// Writes the decimal text of `n` at the start of `buf` and returns its length;
/// the rest of `buf` is left as it was.
pub fn write_u16(n: u16, buf: &mut [u8]) -> (len: usize)
    requires
        decimal(n as nat).len() <= old(buf)@.len(),
    ensures
        len == decimal(n as nat).len(),
        final(buf)@.len() == old(buf)@.len(),
        final(buf)@.subrange(0, len as int) == decimal(n as nat),
        final(buf)@.subrange(len as int, final(buf)@.len() as int) == old(buf)@.subrange(
            len as int,
            old(buf)@.len() as int,
        ),
{
    if n == 0 {
        buf[0] = 48u8;
        return 1;
    }
    let len: usize = decimal_len(n);
    let ghost old_buf = buf@;
    // Write the digits from the right.
    let mut i: usize = len;
    let mut cur: u16 = n;
    while i > 0
        invariant
            i <= len,
            len == digits(n as nat).len(),
            len <= buf@.len(),
            buf@.len() == old_buf.len(),
            digits(cur as nat).len() == i,
            digits(n as nat) == digits(cur as nat) + buf@.subrange(i as int, len as int),
            buf@.subrange(len as int, buf@.len() as int) == old_buf.subrange(
                len as int,
                old_buf.len() as int,
            ),
        decreases i,
    {
        let d: u8 = (cur % 10) as u8;
        let ghost before = buf@;
        buf[i - 1] = d + 48;
        assert(buf@.subrange((i - 1) as int, len as int) == seq![(d + 48) as u8] + before.subrange(
            i as int,
            len as int,
        ));
        assert(buf@.subrange(len as int, buf@.len() as int) == before.subrange(
            len as int,
            before.len() as int,
        ));
        cur = cur / 10;
        i = i - 1;
    }
    assert(digits(cur as nat).len() == 0);
    assert(buf@.subrange(0, len as int) == digits(n as nat));
    len
}

/// Copies `src` into `buf` at `pos` and returns the position after it; the
/// other bytes of `buf` are left as they were.
fn copy_into(buf: &mut [u8], pos: usize, src: &[u8]) -> (end: usize)
    requires
        pos + src@.len() <= old(buf)@.len(),
    ensures
        end == pos + src@.len(),
        final(buf)@ == old(buf)@.subrange(0, pos as int) + src@ + old(buf)@.subrange(
            end as int,
            old(buf)@.len() as int,
        ),
{
    let ghost start = buf@;
    let n: usize = buf.len();
    let mut i: usize = 0;
    while i < src.len()
        invariant
            n == start.len(),
            pos + src@.len() <= start.len(),
            buf@.len() == start.len(),
            i <= src@.len(),
            buf@ == start.subrange(0, pos as int) + src@.subrange(0, i as int) + start.subrange(
                pos + i,
                start.len() as int,
            ),
        decreases src@.len() - i,
    {
        buf[pos + i] = src[i];
        assert(buf@ =~= start.subrange(0, pos as int) + src@.subrange(0, i + 1) + start.subrange(
            pos + i + 1,
            start.len() as int,
        ));
        i = i + 1;
    }
    assert(src@.subrange(0, i as int) =~= src@);
    pos + src.len()
}

/// Writes `http://{host}:{port}{path}` at the start of `buf` and returns its
/// length; the rest of `buf` is left as it was.
pub fn build_url(buf: &mut [u8], host: &str, port: u16, path: &str) -> (len: usize)
    requires
        url_bytes(host.spec_bytes(), port, path.spec_bytes()).len() <= old(buf)@.len(),
    ensures
        len == url_bytes(host.spec_bytes(), port, path.spec_bytes()).len(),
        final(buf)@.len() == old(buf)@.len(),
        final(buf)@.subrange(0, len as int) == url_bytes(host.spec_bytes(), port, path.spec_bytes()),
        final(buf)@.subrange(len as int, final(buf)@.len() as int) == old(buf)@.subrange(
            len as int,
            old(buf)@.len() as int,
        ),
{
    let ghost start = buf@;
    let ghost url = url_bytes(host.spec_bytes(), port, path.spec_bytes());
    let host_bytes: &[u8] = host.as_bytes();
    let path_bytes: &[u8] = path.as_bytes();
    let mut port_buf: [u8; 5] = [0u8; 5];
    proof {
        reveal_with_fuel(pow10, 6);
        lemma_digits_len(port as nat, 5);
    }
    let port_len: usize = write_u16(port, &mut port_buf);
    let port_slice: &[u8] = port_buf.as_slice();
    let port_digits: &[u8] = &port_slice[0..port_len];
    assert(port_digits@ == decimal(port as nat));

    buf[0] = 104u8;
    buf[1] = 116u8;
    buf[2] = 116u8;
    buf[3] = 112u8;
    buf[4] = 58u8;
    buf[5] = 47u8;
    buf[6] = 47u8;
    let mut pos: usize = 7;
    assert(buf@.subrange(0, 7) =~= http_prefix());
    pos = copy_into(buf, pos, host_bytes);
    assert(buf@.subrange(0, pos as int) =~= http_prefix() + host.spec_bytes());
    buf[pos] = 58u8;
    pos = pos + 1;
    assert(buf@.subrange(0, pos as int) =~= http_prefix() + host.spec_bytes() + seq![58u8]);
    pos = copy_into(buf, pos, port_digits);
    assert(buf@.subrange(0, pos as int) =~= http_prefix() + host.spec_bytes() + seq![58u8]
        + decimal(port as nat));
    pos = copy_into(buf, pos, path_bytes);
    assert(buf@.subrange(0, pos as int) =~= url);
    assert(buf@.subrange(pos as int, buf@.len() as int) =~= start.subrange(
        pos as int,
        start.len() as int,
    ));
    pos
}

/// Length of the decimal text of `n`.
pub fn decimal_len(n: u16) -> (len: usize)
    ensures
        len == decimal(n as nat).len(),
        len <= 5,
{
    if n == 0 {
        return 1;
    }
    proof {
        reveal_with_fuel(pow10, 6);
        assert(pow10(5) == 100000);
    }
    let mut len: usize = 0;
    let mut cur: u16 = n;
    while cur > 0
        invariant
            digits(n as nat).len() == len + digits(cur as nat).len(),
            len <= 5,
            cur < pow10((5 - len) as nat),
        decreases cur,
    {
        assert(len < 5);
        assert(cur / 10 < pow10((5 - len - 1) as nat));
        cur = cur / 10;
        len = len + 1;
    }
    len
}

/// Length of the URL `http://{host}:{port}{path}`, or `None` where it does
/// not fit in a `usize`: the buffer that [`build_url`] needs.
pub fn url_len(host: &str, port: u16, path: &str) -> (r: Option<usize>)
    ensures
        r matches Some(n) ==> n == url_bytes(host.spec_bytes(), port, path.spec_bytes()).len(),
        r is None ==> url_bytes(host.spec_bytes(), port, path.spec_bytes()).len() > usize::MAX,
{
    let host_len: usize = host.as_bytes().len();
    let path_len: usize = path.as_bytes().len();
    let port_len: usize = decimal_len(port);
    let fixed: usize = 8 + port_len;
    match host_len.checked_add(fixed) {
        None => None,
        Some(n) => n.checked_add(path_len),
    }
}

/// The decimal text of a number has no leading zero, except the text `0`
/// of zero.
pub proof fn lemma_decimal_canonical(n: nat)
    ensures
        n == 0 ==> decimal(n) == seq![48u8],
        n > 0 ==> decimal(n).len() >= 1 && decimal(n)[0] != 48u8,
{
    if n > 0 {
        lemma_digits_lead(n);
    }
}

proof fn lemma_digits_lead(n: nat)
    requires
        n > 0,
    ensures
        digits(n).len() >= 1,
        digits(n)[0] != 48u8,
    decreases n,
{
    if n / 10 > 0 {
        lemma_digits_lead(n / 10);
        assert(digits(n)[0] == digits(n / 10)[0]);
    } else {
        assert(digits(n / 10) =~= Seq::<u8>::empty());
        assert(n % 10 == n);
    }
}

/// The URL reads back as what it was built from: it starts with
/// `http://`, then the host, then `:`, then a run of decimal digits
/// without leading zero that reads as the port, for every port, and ends
/// with the path.
pub proof fn lemma_url_reads_back(host: Seq<u8>, port: u16, path: Seq<u8>)
    ensures
        ({
            let url = url_bytes(host, port, path);
            let h = host.len() as int;
            let d = url.len() - path.len();
            let port_text = url.subrange(8 + h, d);
            &&& url.subrange(0, 7) == seq![104u8, 116u8, 116u8, 112u8, 58u8, 47u8, 47u8]
            &&& url.subrange(7, 7 + h) == host
            &&& url[7 + h] == 58u8
            &&& 8 + h < d
            &&& forall|i: int| 0 <= i < port_text.len() ==> is_digit(#[trigger] port_text[i])
            &&& digits_value(port_text) == port
            &&& port_text[0] == 48u8 ==> port_text.len() == 1
            &&& url.subrange(d, url.len() as int) == path
        }),
{
    let url = url_bytes(host, port, path);
    let h = host.len() as int;
    let dec = decimal(port as nat);
    lemma_decimal_reads_back(port as nat);
    lemma_decimal_canonical(port as nat);
    let d = url.len() - path.len();
    assert(d == 8 + h + dec.len());
    assert(url.subrange(0, 7) =~= http_prefix());
    assert(url.subrange(7, 7 + h) =~= host);
    assert(url.subrange(8 + h, d) =~= dec);
    assert(url.subrange(d, url.len() as int) =~= path);
}

} // verus!
