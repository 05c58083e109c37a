//! The reconciled record and its fixed ten-line text form.
use vstd::prelude::*;
use crate::amount::{
    all_digits, amount_of_text, amount_text, canonical_amount_in, decimal, digits_in,
    digits_value, is_digit, lemma_amount_text_shape, lemma_decimal, parse_amount, push_amount,
    push_decimal,
};

verus! {

/// The economic shape of one reconciled payment. Amounts are in base units.
pub struct ReconciledRecord {
    pub txid: String,
    pub input_address: String,
    pub input_amount: u64,
    pub payment_address: String,
    pub payment_amount: u64,
    pub change_address: String,
    pub change_amount: u64,
    pub fee: u128,
    pub block_height: u64,
    pub block_hash: String,
}

/// A record's fields as mathematical values.
pub struct RecordView {
    pub txid: Seq<char>,
    pub input_address: Seq<char>,
    pub input_amount: nat,
    pub payment_address: Seq<char>,
    pub payment_amount: nat,
    pub change_address: Seq<char>,
    pub change_amount: nat,
    pub fee: nat,
    pub block_height: nat,
    pub block_hash: Seq<char>,
}

impl View for ReconciledRecord {
    type V = RecordView;

    open spec fn view(&self) -> RecordView {
        RecordView {
            txid: self.txid@,
            input_address: self.input_address@,
            input_amount: self.input_amount as nat,
            payment_address: self.payment_address@,
            payment_amount: self.payment_amount as nat,
            change_address: self.change_address@,
            change_amount: self.change_amount as nat,
            fee: self.fee as nat,
            block_height: self.block_height as nat,
            block_hash: self.block_hash@,
        }
    }
}

pub open spec fn has_no_newline(s: Seq<char>) -> bool {
    forall|i: int| 0 <= i < s.len() ==> #[trigger] s[i] != '\n'
}

/// A record that its text form can carry: no text field holds a line break,
/// and every number fits the field that holds it.
pub open spec fn is_writable(v: RecordView) -> bool {
    &&& has_no_newline(v.txid)
    &&& has_no_newline(v.input_address)
    &&& has_no_newline(v.payment_address)
    &&& has_no_newline(v.change_address)
    &&& has_no_newline(v.block_hash)
    &&& v.input_amount <= u64::MAX
    &&& v.payment_amount <= u64::MAX
    &&& v.change_amount <= u64::MAX
    &&& v.fee <= u128::MAX
    &&& v.block_height <= u64::MAX
}

/// The fee line: the negative of the fee, so a zero fee is written unsigned.
pub open spec fn fee_text(fee: nat) -> Seq<char> {
    if fee == 0 {
        amount_text(0)
    } else {
        seq!['-'] + amount_text(fee)
    }
}

/// The ten fields of a record, in the order of its text form.
pub open spec fn record_fields(v: RecordView) -> Seq<Seq<char>> {
    seq![
        v.txid,
        v.input_address,
        amount_text(v.input_amount),
        v.payment_address,
        amount_text(v.payment_amount),
        v.change_address,
        amount_text(v.change_amount),
        fee_text(v.fee),
        decimal(v.block_height),
        v.block_hash,
    ]
}

/// Lines, each followed by a line break.
pub open spec fn lines_text(lines: Seq<Seq<char>>) -> Seq<char>
    decreases lines.len(),
{
    if lines.len() == 0 {
        Seq::empty()
    } else {
        lines[0] + seq!['\n'] + lines_text(lines.drop_first())
    }
}

/// The text form of a record.
pub open spec fn record_text(v: RecordView) -> Seq<char> {
    lines_text(record_fields(v))
}

pub proof fn lemma_lines_text_push(lines: Seq<Seq<char>>, l: Seq<char>)
    ensures
        lines_text(lines.push(l)) == lines_text(lines) + l + seq!['\n'],
    decreases lines.len(),
{
    if lines.len() == 0 {
        assert(lines.push(l).drop_first() =~= Seq::<Seq<char>>::empty());
        assert(lines_text(Seq::<Seq<char>>::empty()) == Seq::<char>::empty());
        assert(lines.push(l)[0] == l);
        assert(lines_text(lines) == Seq::<char>::empty());
        assert(lines_text(lines.push(l)) =~= lines_text(lines) + l + seq!['\n']);
    } else {
        lemma_lines_text_push(lines.drop_first(), l);
        assert(lines.push(l).drop_first() =~= lines.drop_first().push(l));
        assert(lines_text(lines.push(l)) =~= lines_text(lines) + l + seq!['\n']);
    }
}

fn push_line_break(out: &mut String)
    ensures
        final(out)@ == old(out)@ + seq!['\n'],
{
    out.append("\n");
    proof {
        reveal_strlit("\n");
    }
    assert(final(out)@ =~= old(out)@ + seq!['\n']);
}

fn push_fee(out: &mut String, fee: u128)
    ensures
        final(out)@ == old(out)@ + fee_text(fee as nat),
{
    if fee == 0 {
        push_amount(out, 0);
    } else {
        out.append("-");
        proof {
            reveal_strlit("-");
        }
        push_amount(out, fee);
        assert(out@ =~= old(out)@ + fee_text(fee as nat));
    }
}

impl ReconciledRecord {
    /// The record's text: ten lines, each ended by a line break, in the order
    /// txid, input address, input amount, payment address, payment amount,
    /// change address, change amount, fee (negated), block height, block hash.
    /// Amounts have eight fractional digits.
    pub fn to_text(&self) -> (r: String)
        ensures
            r@ == record_text(self@),
    {
        let ghost f = record_fields(self@);
        let mut out = String::new();
        out.append(self.txid.as_str());
        push_line_break(&mut out);
        out.append(self.input_address.as_str());
        push_line_break(&mut out);
        push_amount(&mut out, self.input_amount as u128);
        push_line_break(&mut out);
        out.append(self.payment_address.as_str());
        push_line_break(&mut out);
        push_amount(&mut out, self.payment_amount as u128);
        push_line_break(&mut out);
        out.append(self.change_address.as_str());
        push_line_break(&mut out);
        push_amount(&mut out, self.change_amount as u128);
        push_line_break(&mut out);
        push_fee(&mut out, self.fee);
        push_line_break(&mut out);
        push_decimal(&mut out, self.block_height as u128);
        push_line_break(&mut out);
        out.append(self.block_hash.as_str());
        push_line_break(&mut out);
        proof {
            let e = Seq::<Seq<char>>::empty();
            lemma_lines_text_push(e, f[0]);
            lemma_lines_text_push(e.push(f[0]), f[1]);
            lemma_lines_text_push(f.subrange(0, 2), f[2]);
            lemma_lines_text_push(f.subrange(0, 3), f[3]);
            lemma_lines_text_push(f.subrange(0, 4), f[4]);
            lemma_lines_text_push(f.subrange(0, 5), f[5]);
            lemma_lines_text_push(f.subrange(0, 6), f[6]);
            lemma_lines_text_push(f.subrange(0, 7), f[7]);
            lemma_lines_text_push(f.subrange(0, 8), f[8]);
            lemma_lines_text_push(f.subrange(0, 9), f[9]);
            assert(e.push(f[0]) =~= f.subrange(0, 1));
            assert(e.push(f[0]).push(f[1]) =~= f.subrange(0, 2));
            assert(f.subrange(0, 2).push(f[2]) =~= f.subrange(0, 3));
            assert(f.subrange(0, 3).push(f[3]) =~= f.subrange(0, 4));
            assert(f.subrange(0, 4).push(f[4]) =~= f.subrange(0, 5));
            assert(f.subrange(0, 5).push(f[5]) =~= f.subrange(0, 6));
            assert(f.subrange(0, 6).push(f[6]) =~= f.subrange(0, 7));
            assert(f.subrange(0, 7).push(f[7]) =~= f.subrange(0, 8));
            assert(f.subrange(0, 8).push(f[8]) =~= f.subrange(0, 9));
            assert(f.subrange(0, 9).push(f[9]) =~= f);
            assert(lines_text(e) == Seq::<char>::empty());
            assert(out@ =~= record_text(self@));
        }
        out
    }
}

/// The record that a text is the form of, if any.
pub open spec fn record_of_text(t: Seq<char>) -> Option<RecordView> {
    if exists|v: RecordView| is_writable(v) && record_text(v) == t {
        Some(choose|v: RecordView| is_writable(v) && record_text(v) == t)
    } else {
        None
    }
}

pub open spec fn line_views(lines: Seq<String>) -> Seq<Seq<char>> {
    lines.map_values(|s: String| s@)
}

pub open spec fn all_lines_plain(lines: Seq<Seq<char>>) -> bool {
    forall|i: int| 0 <= i < lines.len() ==> has_no_newline(#[trigger] lines[i])
}

proof fn lemma_digits_no_newline(s: Seq<char>)
    requires
        all_digits(s),
    ensures
        has_no_newline(s),
{
    assert forall|i: int| 0 <= i < s.len() implies #[trigger] s[i] != '\n' by {
        assert(is_digit(s[i]));
    }
}

proof fn lemma_amount_text_plain(n: nat)
    ensures
        has_no_newline(amount_text(n)),
        amount_text(n).len() >= 10,
        is_digit(amount_text(n)[0]),
{
    lemma_amount_text_shape(n);
    let t = amount_text(n);
    let w = t.subrange(0, t.len() - 9);
    let f = t.subrange(t.len() - 8, t.len() as int);
    lemma_digits_no_newline(w);
    lemma_digits_no_newline(f);
    assert(is_digit(w[0]));
    assert forall|i: int| 0 <= i < t.len() implies #[trigger] t[i] != '\n' by {
        if i < t.len() - 9 {
            assert(t[i] == w[i]);
        } else if i > t.len() - 9 {
            assert(t[i] == f[i - (t.len() - 8)]);
        }
    }
}

proof fn lemma_fee_text(f: nat)
    ensures
        has_no_newline(fee_text(f)),
        f == 0 ==> fee_text(f)[0] != '-',
{
    lemma_amount_text_plain(f);
    lemma_amount_text_plain(0);
    if f != 0 {
        let t = fee_text(f);
        assert forall|i: int| 0 <= i < t.len() implies #[trigger] t[i] != '\n' by {
            if i > 0 {
                assert(t[i] == amount_text(f)[i - 1]);
            }
        }
    }
}

/// Lines without line breaks are recovered from their text.
pub proof fn lemma_lines_text_injective(a: Seq<Seq<char>>, b: Seq<Seq<char>>)
    requires
        all_lines_plain(a),
        all_lines_plain(b),
        lines_text(a) == lines_text(b),
    ensures
        a == b,
    decreases a.len(),
{
    if a.len() == 0 {
        if b.len() != 0 {
            assert(lines_text(b).len() > 0);
        }
        assert(a =~= b);
    } else {
        if b.len() == 0 {
            assert(lines_text(a).len() > 0);
        }
        let t = lines_text(a);
        let x = a[0];
        let y = b[0];
        assert(has_no_newline(x));
        assert(has_no_newline(y));
        if x.len() < y.len() {
            assert(t[x.len() as int] == '\n');
            assert(t[x.len() as int] == y[x.len() as int]);
        }
        if y.len() < x.len() {
            assert(t[y.len() as int] == '\n');
            assert(t[y.len() as int] == x[y.len() as int]);
        }
        assert(x =~= t.subrange(0, x.len() as int));
        assert(y =~= t.subrange(0, y.len() as int));
        assert(lines_text(a.drop_first()) =~= t.subrange(x.len() as int + 1, t.len() as int));
        assert(lines_text(b.drop_first()) =~= t.subrange(y.len() as int + 1, t.len() as int));
        assert forall|i: int| 0 <= i < a.drop_first().len() implies has_no_newline(
            #[trigger] a.drop_first()[i],
        ) by {
            assert(has_no_newline(a[i + 1]));
        }
        assert forall|i: int| 0 <= i < b.drop_first().len() implies has_no_newline(
            #[trigger] b.drop_first()[i],
        ) by {
            assert(has_no_newline(b[i + 1]));
        }
        lemma_lines_text_injective(a.drop_first(), b.drop_first());
        assert(a =~= b) by {
            assert forall|i: int| 0 <= i < a.len() implies a[i] == b[i] by {
                if i > 0 {
                    assert(a[i] == a.drop_first()[i - 1]);
                    assert(b[i] == b.drop_first()[i - 1]);
                }
            }
        }
    }
}

proof fn lemma_fields_plain(v: RecordView)
    requires
        is_writable(v),
    ensures
        all_lines_plain(record_fields(v)),
{
    lemma_amount_text_plain(v.input_amount);
    lemma_amount_text_plain(v.payment_amount);
    lemma_amount_text_plain(v.change_amount);
    lemma_fee_text(v.fee);
    lemma_decimal(v.block_height);
    lemma_digits_no_newline(decimal(v.block_height));
    let f = record_fields(v);
    assert forall|i: int| 0 <= i < f.len() implies has_no_newline(#[trigger] f[i]) by {
        if i == 0 {
        } else if i == 1 {
        } else if i == 2 {
        } else if i == 3 {
        } else if i == 4 {
        } else if i == 5 {
        } else if i == 6 {
        } else if i == 7 {
        } else if i == 8 {
        } else {
        }
    }
}

/// A writable record is determined by its text.
pub proof fn lemma_record_text_injective(v: RecordView, w: RecordView)
    requires
        is_writable(v),
        is_writable(w),
        record_text(v) == record_text(w),
    ensures
        v == w,
{
    lemma_fields_plain(v);
    lemma_fields_plain(w);
    lemma_lines_text_injective(record_fields(v), record_fields(w));
    let fv = record_fields(v);
    let fw = record_fields(w);
    assert(fv[2] == fw[2] && fv[4] == fw[4] && fv[6] == fw[6] && fv[7] == fw[7] && fv[8] == fw[8]);
    lemma_amount_text_shape(v.input_amount);
    lemma_amount_text_shape(w.input_amount);
    lemma_amount_text_shape(v.payment_amount);
    lemma_amount_text_shape(w.payment_amount);
    lemma_amount_text_shape(v.change_amount);
    lemma_amount_text_shape(w.change_amount);
    lemma_amount_text_shape(v.fee);
    lemma_amount_text_shape(w.fee);
    lemma_fee_text(v.fee);
    lemma_fee_text(w.fee);
    if v.fee != 0 && w.fee != 0 {
        assert(amount_text(v.fee) =~= fee_text(v.fee).drop_first());
        assert(amount_text(w.fee) =~= fee_text(w.fee).drop_first());
    }
    lemma_decimal(v.block_height);
    lemma_decimal(w.block_height);
}

/// Reading a record's text gives the record back: `record_text` of a
/// writable record parses to that same record.
pub proof fn lemma_record_round_trip(v: RecordView)
    requires
        is_writable(v),
    ensures
        record_of_text(record_text(v)) == Some(v),
{
    let t = record_text(v);
    assert(is_writable(v) && record_text(v) == t);
    let w = choose|w: RecordView| is_writable(w) && record_text(w) == t;
    lemma_record_text_injective(v, w);
}

/// Splits a text into its lines, each of which must end in a line break.
pub fn split_lines(t: &str) -> (r: Option<Vec<String>>)
    ensures
        r matches Some(ls) ==> lines_text(line_views(ls@)) == t@ && all_lines_plain(
            line_views(ls@),
        ),
        r is None ==> t@.len() > 0 && t@.last() != '\n',
{
    let n = t.unicode_len();
    let mut lines: Vec<String> = Vec::new();
    let mut start: usize = 0;
    let mut i: usize = 0;
    while i < n
        invariant
            n == t@.len(),
            start <= i <= n,
            lines_text(line_views(lines@)) == t@.subrange(0, start as int),
            all_lines_plain(line_views(lines@)),
            has_no_newline(t@.subrange(start as int, i as int)),
        decreases n - i,
    {
        let c = t.get_char(i);
        if c == '\n' {
            let line = t.substring_char(start, i).to_owned();
            proof {
                let old_views = line_views(lines@);
                lemma_lines_text_push(old_views, line@);
                assert(line_views(lines@.push(line)) =~= old_views.push(line@));
                assert(t@.subrange(0, start as int) + line@ + seq!['\n'] =~= t@.subrange(
                    0,
                    i + 1,
                ));
            }
            lines.push(line);
            start = i + 1;
        }
        i = i + 1;
        assert forall|k: int| 0 <= k < t@.subrange(start as int, i as int).len() implies #[trigger] t@.subrange(
            start as int,
            i as int,
        )[k] != '\n' by {
            if start as int + k < i - 1 {
                assert(t@.subrange(start as int, i as int)[k] == t@.subrange(
                    start as int,
                    i - 1,
                )[k]);
            }
        }
    }
    if start == n {
        assert(t@.subrange(0, start as int) =~= t@);
        Some(lines)
    } else {
        assert(t@.subrange(start as int, n as int)[n - 1 - start] == t@.last());
        None
    }
}

/// Reads the fee line: `Some(f)` exactly when the text is `fee_text(f)`.
fn parse_fee(s: &str) -> (r: Option<u128>)
    ensures
        r matches Some(f) ==> fee_text(f as nat) == s@,
        forall|f: u128| fee_text(f as nat) == s@ ==> r == Some(f),
{
    let n = s.unicode_len();
    proof {
        assert forall|f: u128| fee_text(f as nat) == s@ implies (f == 0) == (s@[0] != '-') by {
            lemma_fee_text(f as nat);
            lemma_amount_text_plain(f as nat);
        }
    }
    assert(s@.subrange(0, n as int) =~= s@);
    if n > 0 && s.get_char(0) == '-' {
        assert(s@ =~= seq!['-'] + s@.subrange(1, n as int));
        proof {
            assert forall|f: u128| fee_text(f as nat) == s@ implies f != 0 && amount_text(
                f as nat,
            ) == s@.subrange(1, n as int) by {
                assert(seq!['-'] + amount_text(f as nat) == s@);
                assert(s@.subrange(1, n as int) =~= amount_text(f as nat));
            }
        }
        match canonical_amount_in(s, 1, n) {
            Some(v) => {
                if v == 0 {
                    None
                } else {
                    Some(v)
                }
            },
            None => None,
        }
    } else {
        proof {
            assert forall|f: u128| fee_text(f as nat) == s@ implies f == 0 && amount_text(
                f as nat,
            ) == s@.subrange(0, n as int) by {
                lemma_amount_text_plain(f as nat);
                if f != 0 {
                    assert(s@[0] == '-');
                }
            }
        }
        match canonical_amount_in(s, 0, n) {
            Some(v) => {
                if v == 0 {
                    Some(0)
                } else {
                    None
                }
            },
            None => None,
        }
    }
}

/// Reads the block height line: `Some(h)` exactly when the text is `decimal(h)`.
fn parse_height(s: &str) -> (r: Option<u64>)
    ensures
        r matches Some(h) ==> decimal(h as nat) == s@,
        forall|h: u64| decimal(h as nat) == s@ ==> r == Some(h),
{
    let n = s.unicode_len();
    assert(s@.subrange(0, n as int) =~= s@);
    proof {
        assert forall|h: u64| decimal(h as nat) == s@ implies all_digits(s@) && digits_value(s@)
            == h by {
            lemma_decimal(h as nat);
        }
    }
    match digits_in(s, 0, n) {
        Some(v) => {
            if v > u64::MAX as u128 {
                return None;
            }
            let mut text = String::new();
            push_decimal(&mut text, v);
            assert(text@ =~= decimal(v as nat));
            let piece = s.to_owned();
            if text == piece {
                Some(v as u64)
            } else {
                None
            }
        },
        None => None,
    }
}

/// Reads a record from its text form. Gives the record exactly when the text
/// is the form of a writable record; any other text gives `None`.
pub fn parse_record(t: &str) -> (r: Option<ReconciledRecord>)
    ensures
        match r {
            Some(rec) => record_of_text(t@) == Some(rec@),
            None => record_of_text(t@) is None,
        },
{
    proof {
        if record_of_text(t@) is Some {
            let v = record_of_text(t@)->0;
            lemma_fields_plain(v);
        }
    }
    let lines = match split_lines(t) {
        Some(ls) => ls,
        None => {
            proof {
                if record_of_text(t@) is Some {
                    let v = record_of_text(t@)->0;
                    let f = record_fields(v);
                    let rest = lines_text(f.subrange(1, 10));
                    assert(f.drop_first() =~= f.subrange(1, 10));
                    assert(t@ =~= f[0] + seq!['\n'] + rest);
                    assert(t@.last() == '\n') by {
                        lemma_lines_text_push(f.subrange(0, 9), f[9]);
                        assert(f.subrange(0, 9).push(f[9]) =~= f);
                    }
                }
            }
            return None;
        },
    };
    let ghost views = line_views(lines@);
    proof {
        if record_of_text(t@) is Some {
            let v = record_of_text(t@)->0;
            lemma_lines_text_injective(views, record_fields(v));
        }
    }
    if lines.len() != 10 {
        return None;
    }
    assert(lines[2]@ == views[2] && lines[4]@ == views[4] && lines[6]@ == views[6]);
    assert(lines[7]@ == views[7] && lines[8]@ == views[8]);
    let input_amount = parse_amount(lines[2].as_str());
    let payment_amount = parse_amount(lines[4].as_str());
    let change_amount = parse_amount(lines[6].as_str());
    let fee = parse_fee(lines[7].as_str());
    let block_height = parse_height(lines[8].as_str());
    match (input_amount, payment_amount, change_amount, fee, block_height) {
        (Some(ia), Some(pa), Some(ca), Some(f), Some(h)) => {
            let rec = ReconciledRecord {
                txid: lines[0].clone(),
                input_address: lines[1].clone(),
                input_amount: ia,
                payment_address: lines[3].clone(),
                payment_amount: pa,
                change_address: lines[5].clone(),
                change_amount: ca,
                fee: f,
                block_height: h,
                block_hash: lines[9].clone(),
            };
            proof {
                assert(record_fields(rec@) =~= views);
                assert(has_no_newline(views[0]) && has_no_newline(views[1]) && has_no_newline(
                    views[3],
                ) && has_no_newline(views[5]) && has_no_newline(views[9]));
                assert(is_writable(rec@));
                assert(record_text(rec@) == t@);
                let w = record_of_text(t@)->0;
                lemma_record_text_injective(rec@, w);
            }
            Some(rec)
        },
        _ => None,
    }
}

} // verus!
