use vstd::prelude::*;

verus! {

/// The decimal digits of `n` in ASCII, most significant first, without leading zeros.
pub open spec fn decimal(n: nat) -> Seq<u8>
    decreases n,
{
    if n < 10 {
        seq![(48 + n) as u8]
    } else {
        decimal(n / 10).push((48 + n % 10) as u8)
    }
}

pub open spec fn is_digit(b: u8) -> bool {
    48 <= b <= 57
}

/// The number that a run of ASCII digits spells.
pub open spec fn digits_value(ds: Seq<u8>) -> nat
    decreases ds.len(),
{
    if ds.len() == 0 {
        0
    } else {
        digits_value(ds.drop_last()) * 10 + (ds.last() - 48) as nat
    }
}

/// A nonempty run of digits without a leading zero (but for "0" itself).
pub open spec fn canonical_digits(ds: Seq<u8>) -> bool {
    &&& ds.len() > 0
    &&& forall|i: int| 0 <= i < ds.len() ==> is_digit(#[trigger] ds[i])
    &&& (ds.len() == 1 || ds[0] != 48)
}

/// The header of a binary portable pixmap: its magic number and a line feed, the width,
/// a space, the height, a space, the largest channel value 255 and a line feed.
pub open spec fn ppm_header(width: nat, height: nat) -> Seq<u8> {
    seq![80u8, 54, 10] + decimal(width) + seq![32u8] + decimal(height) + seq![32u8, 50, 53, 53, 10]
}

/// The rows of `s`, each `row` bytes long, last row first.
pub open spec fn reverse_rows(s: Seq<u8>, row: nat) -> Seq<u8>
    decreases s.len(),
{
    if row == 0 || s.len() < row {
        s
    } else {
        s.subrange(s.len() - row, s.len() as int) + reverse_rows(s.subrange(0, s.len() - row), row)
    }
}

/// The file of an image `width` pixels wide whose bytes `rgb` are red, green and blue
/// for each pixel, row-major with row 0 at the bottom: the header, then the rows top
/// row first.
pub open spec fn ppm_bytes(width: nat, height: nat, rgb: Seq<u8>) -> Seq<u8> {
    ppm_header(width, height) + reverse_rows(rgb, 3 * width)
}

proof fn lemma_decimal_canonical(n: nat)
    ensures
        canonical_digits(decimal(n)),
        digits_value(decimal(n)) == n,
        n > 0 ==> decimal(n)[0] != 48,
    decreases n,
{
    if n >= 10 {
        lemma_decimal_canonical(n / 10);
        let d = decimal(n);
        vstd::arithmetic::div_mod::lemma_fundamental_div_mod(n as int, 10);
        assert(d.last() == (48 + n % 10) as u8);
        assert(d.drop_last() == decimal(n / 10));
        assert(digits_value(d) == digits_value(decimal(n / 10)) * 10 + n % 10);
        assert(digits_value(d) == (n / 10) * 10 + n % 10);
        assert(d[0] == decimal(n / 10)[0]);
        assert forall|i: int| 0 <= i < d.len() implies is_digit(#[trigger] d[i]) by {
            if i < d.len() - 1 {
                assert(d[i] == decimal(n / 10)[i]);
            }
        }
    } else {
        assert(decimal(n).drop_last() =~= Seq::<u8>::empty());
        assert(digits_value(Seq::<u8>::empty()) == 0);
        assert(decimal(n).last() == (48 + n) as u8);
        assert(digits_value(decimal(n)) == 0 * 10 + n);
    }
}

proof fn lemma_digits_positive(ds: Seq<u8>)
    requires
        canonical_digits(ds),
        ds[0] != 48,
    ensures
        digits_value(ds) > 0,
    decreases ds.len(),
{
    if ds.len() > 1 {
        let p = ds.drop_last();
        assert(p[0] == ds[0]);
        assert forall|i: int| 0 <= i < p.len() implies is_digit(#[trigger] p[i]) by {
            assert(p[i] == ds[i]);
        }
        lemma_digits_positive(p);
    } else {
        assert(ds.drop_last().len() == 0);
    }
}

proof fn lemma_canonical_is_decimal(ds: Seq<u8>)
    requires
        canonical_digits(ds),
    ensures
        decimal(digits_value(ds)) == ds,
    decreases ds.len(),
{
    let v = digits_value(ds);
    let p = ds.drop_last();
    let d = ds.last();
    assert(is_digit(ds[ds.len() - 1]));
    if ds.len() == 1 {
        assert(p.len() == 0);
        assert(decimal(v) =~= ds);
    } else {
        assert(p[0] == ds[0]);
        assert forall|i: int| 0 <= i < p.len() implies is_digit(#[trigger] p[i]) by {
            assert(p[i] == ds[i]);
        }
        lemma_canonical_is_decimal(p);
        lemma_digits_positive(p);
        let pv = digits_value(p);
        assert(v == pv * 10 + (d - 48) as nat);
        assert(v / 10 == pv && v % 10 == (d - 48) as nat && v >= 10) by (nonlinear_arith)
            requires
                v == pv * 10 + (d - 48) as nat,
                pv > 0,
                48 <= d <= 57,
        ;
        assert(ds == p.push(d));
    }
}

proof fn lemma_digits_prefix_le(ds: Seq<u8>, k: int)
    requires
        0 <= k <= ds.len(),
        forall|i: int| 0 <= i < ds.len() ==> is_digit(#[trigger] ds[i]),
    ensures
        digits_value(ds.subrange(0, k)) <= digits_value(ds),
    decreases ds.len(),
{
    if k < ds.len() {
        let p = ds.drop_last();
        assert forall|i: int| 0 <= i < p.len() implies is_digit(#[trigger] p[i]) by {
            assert(p[i] == ds[i]);
        }
        lemma_digits_prefix_le(p, k);
        assert(p.subrange(0, k) == ds.subrange(0, k));
        assert(ds.subrange(0, ds.len() as int) == ds);
        let pv = digits_value(p);
        assert(digits_value(ds) >= pv) by (nonlinear_arith)
            requires
                digits_value(ds) == pv * 10 + (ds.last() - 48) as nat,
        ;
    } else {
        assert(ds.subrange(0, k) == ds);
    }
}

proof fn lemma_multiple_at_least(x: nat, m: nat)
    requires
        m > 0,
        x > 0,
        x % m == 0,
    ensures
        x >= m,
{
    if x < m {
        vstd::arithmetic::div_mod::lemma_small_mod(x, m);
    }
}

proof fn lemma_reverse_rows_len(s: Seq<u8>, row: nat)
    ensures
        reverse_rows(s, row).len() == s.len(),
    decreases s.len(),
{
    if row > 0 && s.len() >= row {
        lemma_reverse_rows_len(s.subrange(0, s.len() - row), row);
    }
}

/// Reversing the rows of one row in front of whole rows moves that row to the end.
proof fn lemma_reverse_rows_front(a: Seq<u8>, y: Seq<u8>, row: nat)
    requires
        row > 0,
        a.len() == row,
        y.len() % row == 0,
    ensures
        reverse_rows(a + y, row) == reverse_rows(y, row) + a,
    decreases y.len(),
{
    let s = a + y;
    if y.len() == 0 {
        assert(s == a);
        assert(s.subrange(0, 0).len() == 0);
        assert(s.subrange(0, s.len() - row) =~= Seq::<u8>::empty());
        assert(s.subrange(s.len() - row, s.len() as int) == a);
        assert(reverse_rows(Seq::<u8>::empty(), row) == Seq::<u8>::empty());
        assert(reverse_rows(s, row) =~= a);
        assert(reverse_rows(y, row) =~= Seq::<u8>::empty());
        assert(reverse_rows(y, row) + a =~= a);
    } else {
        lemma_multiple_at_least(y.len(), row);
        let yi = y.subrange(0, y.len() - row);
        let yl = y.subrange(y.len() - row, y.len() as int);
        assert(yi.len() % row == 0) by {
            vstd::arithmetic::div_mod::lemma_mod_sub_multiples_vanish(y.len() as int, row as int);
        }
        lemma_reverse_rows_front(a, yi, row);
        assert(s.subrange(s.len() - row, s.len() as int) == yl);
        assert(s.subrange(0, s.len() - row) == a + yi);
        assert(reverse_rows(s, row) == yl + reverse_rows(a + yi, row));
        assert(reverse_rows(y, row) == yl + reverse_rows(yi, row));
        assert(yl + (reverse_rows(yi, row) + a) =~= (yl + reverse_rows(yi, row)) + a);
    }
}

proof fn lemma_reverse_rows_twice(s: Seq<u8>, row: nat)
    requires
        row > 0,
        s.len() % row == 0,
    ensures
        reverse_rows(reverse_rows(s, row), row) == s,
    decreases s.len(),
{
    if s.len() > 0 {
        lemma_multiple_at_least(s.len(), row);
        let init = s.subrange(0, s.len() - row);
        let last = s.subrange(s.len() - row, s.len() as int);
        assert(init.len() % row == 0) by {
            vstd::arithmetic::div_mod::lemma_mod_sub_multiples_vanish(s.len() as int, row as int);
        }
        lemma_reverse_rows_twice(init, row);
        lemma_reverse_rows_len(init, row);
        lemma_reverse_rows_front(last, reverse_rows(init, row), row);
        assert(init + last == s);
    } else {
        assert(reverse_rows(s, row) == s);
    }
}

/// Appends the decimal digits of `n`.
fn push_decimal(out: &mut Vec<u8>, n: u32)
    ensures
        final(out)@ == old(out)@ + decimal(n as nat),
    decreases n,
{
    if n < 10 {
        out.push((48 + n) as u8);
    } else {
        push_decimal(out, n / 10);
        out.push((48 + n % 10) as u8);
    }
}

fn push_bytes(out: &mut Vec<u8>, bytes: &[u8])
    ensures
        final(out)@ == old(out)@ + bytes@,
{
    let ghost start = out@;
    let mut i: usize = 0;
    while i < bytes.len()
        invariant
            i <= bytes.len(),
            out@ == start + bytes@.subrange(0, i as int),
        decreases bytes.len() - i,
    {
        out.push(bytes[i]);
        assert(bytes@.subrange(0, i + 1) == bytes@.subrange(0, i as int).push(bytes@[i as int]));
        i = i + 1;
    }
    assert(bytes@.subrange(0, bytes@.len() as int) == bytes@);
}

/// The rows of `rgb`, each `row` bytes long, in reverse order.
pub fn bytes_inverse_y(rgb: &Vec<u8>, row: usize) -> (r: Vec<u8>)
    requires
        row > 0,
        rgb.len() % row == 0,
    ensures
        r@ == reverse_rows(rgb@, row as nat),
{
    let ghost s = rgb@;
    let mut out: Vec<u8> = Vec::new();
    let mut end: usize = rgb.len();
    assert(s.subrange(0, end as int) == s);
    while end > 0
        invariant
            row > 0,
            end <= rgb.len(),
            end % row == 0,
            s == rgb@,
            out@ + reverse_rows(s.subrange(0, end as int), row as nat) == reverse_rows(s, row as nat),
        decreases end,
    {
        proof {
            lemma_multiple_at_least(end as nat, row as nat);
        }
        let start = end - row;
        assert(start % row == 0) by {
            vstd::arithmetic::div_mod::lemma_mod_sub_multiples_vanish(end as int, row as int);
        }
        let ghost out0 = out@;
        let ghost prefix = s.subrange(0, end as int);
        let mut i: usize = start;
        while i < end
            invariant
                start <= i <= end,
                end <= rgb.len(),
                s == rgb@,
                out@ == out0 + s.subrange(start as int, i as int),
            decreases end - i,
        {
            out.push(rgb[i]);
            assert(s.subrange(start as int, i + 1) == s.subrange(start as int, i as int).push(s[i as int]));
            i = i + 1;
        }
        assert(prefix.subrange(prefix.len() - row, prefix.len() as int) == s.subrange(start as int, end as int));
        assert(prefix.subrange(0, prefix.len() - row) == s.subrange(0, start as int));
        assert(out@ + reverse_rows(s.subrange(0, start as int), row as nat) == out0 + reverse_rows(
            prefix,
            row as nat,
        ));
        end = start;
    }
    assert(reverse_rows(s.subrange(0, 0), row as nat) == Seq::<u8>::empty());
    assert(out@ + Seq::<u8>::empty() == out@);
    out
}

/// An image as the bytes of its pixels: red, green and blue for each pixel, row-major
/// with row 0 at the bottom.
#[derive(Debug, PartialEq, Eq)]
pub struct RgbImage {
    pub width: u32,
    pub height: u32,
    pub rgb: Vec<u8>,
}

impl RgbImage {
    pub open spec fn valid(self) -> bool {
        self.rgb@.len() == 3 * self.width * self.height
    }
}

/// The pixmap file of `image`: the header, then the rows top row first.
pub fn encode_ppm(image: &RgbImage) -> (r: Vec<u8>)
    requires
        image.valid(),
    ensures
        r@ == ppm_bytes(image.width as nat, image.height as nat, image.rgb@),
{
    let mut out: Vec<u8> = Vec::new();
    out.push(80u8);
    out.push(54u8);
    out.push(10u8);
    push_decimal(&mut out, image.width);
    out.push(32u8);
    push_decimal(&mut out, image.height);
    out.push(32u8);
    out.push(50u8);
    out.push(53u8);
    out.push(53u8);
    out.push(10u8);
    assert(out@ == ppm_header(image.width as nat, image.height as nat));
    if image.width == 0 || image.rgb.len() == 0 {
        assert(reverse_rows(image.rgb@, 3 * image.width as nat) == image.rgb@);
        push_bytes(&mut out, image.rgb.as_slice());
    } else {
        assert(3 * image.width <= image.rgb@.len()) by (nonlinear_arith)
            requires
                image.rgb@.len() == 3 * image.width * image.height,
                image.rgb@.len() > 0,
        ;
        let row = 3 * image.width as usize;
        assert(image.rgb@.len() as int % (row as int) == 0) by {
            vstd::arithmetic::div_mod::lemma_mod_multiples_basic(image.height as int, row as int);
            assert(image.rgb@.len() == image.height as int * row) by (nonlinear_arith)
                requires
                    image.rgb@.len() == 3 * image.width * image.height,
                    row == 3 * image.width,
            ;
        }
        let body = bytes_inverse_y(&image.rgb, row);
        push_bytes(&mut out, body.as_slice());
    }
    out
}

/// `s` holds, from `pos` up to `end`, the decimal digits of `v`, and no digit follows.
pub open spec fn decimal_at(s: Seq<u8>, pos: int, v: nat, end: int) -> bool {
    &&& 0 <= pos < end <= s.len()
    &&& s.subrange(pos, end) == decimal(v)
    &&& (end < s.len() ==> !is_digit(s[end]))
}

/// `s` is the file of some image.
pub open spec fn ppm_readable(s: Seq<u8>) -> bool {
    exists|w: u32, h: u32, rgb: Seq<u8>|
        rgb.len() == 3 * w * h && s == #[trigger] ppm_bytes(w as nat, h as nat, rgb)
}

/// Reads the decimal number that starts at `pos`, with the position after its last digit.
fn read_decimal(bytes: &Vec<u8>, pos: usize) -> (r: Option<(u32, usize)>)
    requires
        pos <= bytes.len(),
    ensures
        r matches Some((v, end)) ==> decimal_at(bytes@, pos as int, v as nat, end as int),
        forall|v: u32, end: int| #[trigger] decimal_at(bytes@, pos as int, v as nat, end) ==> r == Some((v, end as usize)),
{
    let ghost s = bytes@;
    let mut end: usize = pos;
    while end < bytes.len() && 48 <= bytes[end] && bytes[end] <= 57
        invariant
            pos <= end <= bytes.len(),
            forall|i: int| pos <= i < end ==> is_digit(#[trigger] s[i]),
            s == bytes@,
        decreases bytes.len() - end,
    {
        end = end + 1;
    }
    let ghost ds = s.subrange(pos as int, end as int);
    assert forall|v: u32, e: int| #[trigger] decimal_at(s, pos as int, v as nat, e) implies e == end by {
        lemma_decimal_canonical(v as nat);
        if e < end {
            assert(is_digit(s[e]));
        } else if e > end {
            assert(s.subrange(pos as int, e)[end - pos] == s[end as int]);
            assert(is_digit(decimal(v as nat)[end - pos]));
        }
    }
    if end == pos {
        return None;
    }
    if end - pos > 1 && bytes[pos] == 48 {
        assert forall|v: u32, e: int| #[trigger] decimal_at(s, pos as int, v as nat, e) implies false by {
            lemma_decimal_canonical(v as nat);
            assert(ds == decimal(v as nat));
            assert(ds[0] == s[pos as int]);
            if v == 0 {
                assert(ds.len() == 1);
            }
        }
        return None;
    }
    let mut value: u64 = 0;
    let mut i: usize = pos;
    while i < end
        invariant
            pos <= i <= end,
            end <= bytes.len(),
            s == bytes@,
            ds == s.subrange(pos as int, end as int),
            forall|k: int| pos <= k < end ==> is_digit(#[trigger] s[k]),
            value == digits_value(s.subrange(pos as int, i as int)),
            value <= u32::MAX,
            forall|v: u32, e: int| #[trigger] decimal_at(s, pos as int, v as nat, e) ==> e == end,
        decreases end - i,
    {
        let d = bytes[i] - 48;
        assert(is_digit(s[i as int]));
        let ghost pre = s.subrange(pos as int, i as int);
        assert(s.subrange(pos as int, i + 1).drop_last() == pre);
        assert(s.subrange(pos as int, i + 1).last() == s[i as int]);
        let next = value * 10 + d as u64;
        if next > u32::MAX as u64 {
            assert forall|v: u32, e: int| #[trigger] decimal_at(s, pos as int, v as nat, e) implies false by {
                lemma_decimal_canonical(v as nat);
                assert(ds == decimal(v as nat));
                assert forall|k: int| 0 <= k < ds.len() implies is_digit(#[trigger] ds[k]) by {
                    assert(ds[k] == s[pos + k]);
                }
                lemma_digits_prefix_le(ds, i + 1 - pos);
                assert(ds.subrange(0, i + 1 - pos) == s.subrange(pos as int, i + 1));
            }
            return None;
        }
        value = next;
        i = i + 1;
    }
    proof {
        assert forall|k: int| 0 <= k < ds.len() implies is_digit(#[trigger] ds[k]) by {
            assert(ds[k] == s[pos + k]);
        }
        assert(ds[0] == s[pos as int]);
        lemma_canonical_is_decimal(ds);
        assert(s.subrange(pos as int, end as int) == ds);
        assert forall|v: u32, e: int| #[trigger] decimal_at(s, pos as int, v as nat, e) implies value == v by {
            lemma_decimal_canonical(v as nat);
        }
    }
    Some((value as u32, end))
}

/// Where the first digit after the first number of a file stands, and where the
/// header's closing space stands.
pub open spec fn width_end(w: nat) -> int {
    3 + decimal(w).len() as int
}

pub open spec fn height_end(w: nat, h: nat) -> int {
    width_end(w) + 1 + decimal(h).len() as int
}

proof fn lemma_readable_fields(s: Seq<u8>, w: u32, h: u32, rgb: Seq<u8>)
    requires
        rgb.len() == 3 * w * h,
        s == ppm_bytes(w as nat, h as nat, rgb),
    ensures
        s.len() >= 3 && s[0] == 80 && s[1] == 54 && s[2] == 10,
        decimal_at(s, 3, w as nat, width_end(w as nat)),
        s[width_end(w as nat)] == 32u8,
        decimal_at(s, width_end(w as nat) + 1, h as nat, height_end(w as nat, h as nat)),
        height_end(w as nat, h as nat) + 5 <= s.len(),
        s.subrange(height_end(w as nat, h as nat), height_end(w as nat, h as nat) + 5) == seq![32u8, 50, 53, 53, 10],
        s.len() - (height_end(w as nat, h as nat) + 5) == 3 * w * h,
        s.subrange(height_end(w as nat, h as nat) + 5, s.len() as int) == reverse_rows(rgb, 3 * w as nat),
{
    let magic = seq![80u8, 54, 10];
    let tail = seq![32u8, 50, 53, 53, 10];
    lemma_decimal_canonical(w as nat);
    lemma_decimal_canonical(h as nat);
    lemma_reverse_rows_len(rgb, 3 * w as nat);
    let dw = decimal(w as nat);
    let dh = decimal(h as nat);
    let e1 = width_end(w as nat);
    let e2 = height_end(w as nat, h as nat);
    assert(s == magic + dw + seq![32u8] + dh + tail + reverse_rows(rgb, 3 * w as nat));
    assert(s[0] == 80 && s[1] == 54 && s[2] == 10);
    assert(s.subrange(3, e1) == dw);
    assert(s[e1] == 32u8);
    assert(s.subrange(e1 + 1, e2) == dh);
    assert(s[e2] == 32u8);
    assert(s.subrange(e2, e2 + 5) == tail);
    assert(s.subrange(e2 + 5, s.len() as int) == reverse_rows(rgb, 3 * w as nat));
}

fn copy_from(bytes: &Vec<u8>, start: usize) -> (r: Vec<u8>)
    requires
        start <= bytes.len(),
    ensures
        r@ == bytes@.subrange(start as int, bytes@.len() as int),
{
    let mut body: Vec<u8> = Vec::new();
    let mut i: usize = start;
    while i < bytes.len()
        invariant
            start <= i <= bytes.len(),
            body@ == bytes@.subrange(start as int, i as int),
        decreases bytes.len() - i,
    {
        body.push(bytes[i]);
        assert(bytes@.subrange(start as int, i + 1) == bytes@.subrange(start as int, i as int).push(
            bytes@[i as int],
        ));
        i = i + 1;
    }
    body
}

/// The width, height and length of the header of the file `bytes`, if it begins with
/// the header of a pixmap.
fn read_header(bytes: &Vec<u8>) -> (r: Option<(u32, u32, usize)>)
    ensures
        r matches Some((w, h, start)) ==> start <= bytes.len() && bytes@.subrange(0, start as int)
            == ppm_header(w as nat, h as nat),
        forall|w: u32, h: u32, rgb: Seq<u8>|
            rgb.len() == 3 * w * h && bytes@ == #[trigger] ppm_bytes(w as nat, h as nat, rgb) ==> r
                == Some((w, h, (height_end(w as nat, h as nat) + 5) as usize)),
{
    let ghost s = bytes@;
    assert forall|w: u32, h: u32, rgb: Seq<u8>|
        rgb.len() == 3 * w * h && s == #[trigger] ppm_bytes(w as nat, h as nat, rgb) implies {
        &&& s.len() >= 3 && s[0] == 80 && s[1] == 54 && s[2] == 10
        &&& decimal_at(s, 3, w as nat, width_end(w as nat))
        &&& s[width_end(w as nat)] == 32u8
        &&& decimal_at(s, width_end(w as nat) + 1, h as nat, height_end(w as nat, h as nat))
        &&& height_end(w as nat, h as nat) + 5 <= s.len()
        &&& s.subrange(height_end(w as nat, h as nat), height_end(w as nat, h as nat) + 5) == seq![32u8, 50, 53, 53, 10]
    } by {
        lemma_readable_fields(s, w, h, rgb);
    }
    if bytes.len() < 3 || bytes[0] != 80 || bytes[1] != 54 || bytes[2] != 10 {
        return None;
    }
    let (width, after_width) = match read_decimal(bytes, 3) {
        Some(found) => found,
        None => {
            return None;
        },
    };
    if after_width >= bytes.len() || bytes[after_width] != 32 {
        return None;
    }
    let (height, after_height) = match read_decimal(bytes, after_width + 1) {
        Some(found) => found,
        None => {
            return None;
        },
    };
    if bytes.len() - after_height < 5 || bytes[after_height] != 32 || bytes[after_height + 1] != 50 || bytes[after_height + 2] != 53
        || bytes[after_height + 3] != 53 || bytes[after_height + 4] != 10 {
        return None;
    }
    let start = after_height + 5;
    assert(s.subrange(3, after_width as int) == decimal(width as nat));
    assert(s.subrange(after_width + 1, after_height as int) == decimal(height as nat));
    assert(s.subrange(0, start as int) =~= ppm_header(width as nat, height as nat));
    Some((width, height, start))
}

/// The image whose file `bytes` is, if `bytes` is the file of an image.
pub fn decode_ppm(bytes: &Vec<u8>) -> (r: Option<RgbImage>)
    ensures
        r matches Some(img) ==> img.valid() && bytes@ == ppm_bytes(
            img.width as nat,
            img.height as nat,
            img.rgb@,
        ),
        ppm_readable(bytes@) ==> r is Some,
{
    let ghost s = bytes@;
    let (width, height, start) = match read_header(bytes) {
        Some(found) => found,
        None => {
            return None;
        },
    };
    proof {
        if ppm_readable(s) {
            let (w, h, rgb) = choose|w: u32, h: u32, rgb: Seq<u8>|
                rgb.len() == 3 * w * h && s == #[trigger] ppm_bytes(w as nat, h as nat, rgb);
            lemma_readable_fields(s, w, h, rgb);
            assert(width == w && height == h);
            assert(s.len() - start == 3 * width * height);
        }
    }
    let body_len = bytes.len() - start;
    assert((width as int) * (height as int) <= u64::MAX) by (nonlinear_arith)
        requires
            width <= u32::MAX,
            height <= u32::MAX,
    ;
    let area = width as u64 * height as u64;
    assert(3 * (area as int) == 3 * width * height) by (nonlinear_arith)
        requires
            area == width * height,
    ;
    if body_len as u128 != 3 * (area as u128) {
        return None;
    }
    assert(area == width * height);
    assert(body_len == 3 * width * height);
    let body = copy_from(bytes, start);
    let ghost header = s.subrange(0, start as int);
    assert(s == header + body@);
    assert(body@.len() == 3 * width * height);
    if width == 0 || body.len() == 0 {
        assert(reverse_rows(body@, 3 * width as nat) == body@);
        return Some(RgbImage { width, height, rgb: body });
    }
    assert(3 * width <= body@.len()) by (nonlinear_arith)
        requires
            body@.len() == 3 * width * height,
            body@.len() > 0,
    ;
    let row = 3 * width as usize;
    assert(body@.len() == height as int * row) by (nonlinear_arith)
        requires
            body@.len() == 3 * width * height,
            row == 3 * width,
    ;
    assert(body@.len() as int % (row as int) == 0) by {
        vstd::arithmetic::div_mod::lemma_mod_multiples_basic(height as int, row as int);
    }
    let rgb = bytes_inverse_y(&body, row);
    proof {
        lemma_reverse_rows_twice(body@, row as nat);
        lemma_reverse_rows_len(body@, row as nat);
    }
    Some(RgbImage { width, height, rgb })
}

proof fn lemma_decimal_at_unique(s: Seq<u8>, pos: int, v1: nat, e1: int, v2: nat, e2: int)
    requires
        decimal_at(s, pos, v1, e1),
        decimal_at(s, pos, v2, e2),
    ensures
        v1 == v2,
        e1 == e2,
{
    lemma_decimal_canonical(v1);
    lemma_decimal_canonical(v2);
    if e1 < e2 {
        assert(s.subrange(pos, e2)[e1 - pos] == s[e1]);
        assert(is_digit(decimal(v2)[e1 - pos]));
    } else if e2 < e1 {
        assert(s.subrange(pos, e1)[e2 - pos] == s[e2]);
        assert(is_digit(decimal(v1)[e2 - pos]));
    }
}

/// Reading back the file of an image gives that image: the file is readable, and any
/// image whose file it also is has the same width, height and pixel bytes.
pub proof fn lemma_ppm_round_trip(image: RgbImage, read: RgbImage)
    requires
        image.valid(),
        read.valid(),
        ppm_bytes(read.width as nat, read.height as nat, read.rgb@) == ppm_bytes(
            image.width as nat,
            image.height as nat,
            image.rgb@,
        ),
    ensures
        ppm_readable(ppm_bytes(image.width as nat, image.height as nat, image.rgb@)),
        read.width == image.width,
        read.height == image.height,
        read.rgb@ == image.rgb@,
{
    let s = ppm_bytes(image.width as nat, image.height as nat, image.rgb@);
    let (w1, h1) = (read.width as nat, read.height as nat);
    let (w2, h2) = (image.width as nat, image.height as nat);
    lemma_readable_fields(s, read.width, read.height, read.rgb@);
    lemma_readable_fields(s, image.width, image.height, image.rgb@);
    lemma_decimal_at_unique(s, 3, w1, width_end(w1), w2, width_end(w2));
    lemma_decimal_at_unique(s, width_end(w1) + 1, h1, height_end(w1, h1), h2, height_end(w2, h2));
    if image.width == 0 {
        assert(reverse_rows(read.rgb@, 0) == read.rgb@);
        assert(reverse_rows(image.rgb@, 0) == image.rgb@);
    } else {
        let row = 3 * image.width as nat;
        assert(read.rgb@.len() == image.height as int * row && image.rgb@.len() == image.height as int
            * row) by (nonlinear_arith)
            requires
                read.rgb@.len() == 3 * read.width * read.height,
                image.rgb@.len() == 3 * image.width * image.height,
                read.width == image.width,
                read.height == image.height,
                row == 3 * image.width,
        ;
        vstd::arithmetic::div_mod::lemma_mod_multiples_basic(image.height as int, row as int);
        lemma_reverse_rows_twice(read.rgb@, row);
        lemma_reverse_rows_twice(image.rgb@, row);
    }
    assert(image.rgb@.len() == 3 * image.width * image.height);
}

/// The position of pixel `(x, y)` in a row-major buffer of rows `width` pixels long.
pub fn pixel_index(x: u32, y: u32, width: u32) -> (r: usize)
    requires
        x < width,
        (y as int + 1) * width as int <= usize::MAX,
    ensures
        r == x as int + y as int * width as int,
{
    proof {
        assert(y as int * width as int + x < (y as int + 1) * width as int) by (nonlinear_arith)
            requires
                x < width,
        ;
    }
    x as usize + y as usize * width as usize
}

} // verus!
