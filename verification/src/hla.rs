//! The HLA class I allele identifier: a gene locus (`A`, `B` or `C`) and up
//! to four colon-separated numeric nomenclature fields (allele group,
//! protein, synonymous, non-coding), parsed from text at any resolution.

use vstd::prelude::*;
use vstd::string::*;

verus! {

/// A decimal digit.
pub open spec fn is_digit(c: char) -> bool {
    0x30 <= c as u32 <= 0x39
}

/// The value of a decimal digit.
pub open spec fn digit_val(c: char) -> nat {
    (c as u32 - 0x30) as nat
}

/// Every character of `s` is a decimal digit.
pub open spec fn all_digits(s: Seq<char>) -> bool {
    forall|i: int| 0 <= i < s.len() ==> is_digit(#[trigger] s[i])
}

/// The number written by the digits of `s`, most significant first.
pub open spec fn group_val(s: Seq<char>) -> nat
    decreases s.len(),
{
    if s.len() == 0 {
        0
    } else {
        group_val(s.drop_last()) * 10 + digit_val(s.last())
    }
}

/// A well-formed nomenclature field: one to four digits.
pub open spec fn valid_group(s: Seq<char>) -> bool {
    1 <= s.len() <= 4 && all_digits(s)
}

/// A sequence of 1-to-4-digit groups is bounded by the largest four-digit
/// number.
pub proof fn lemma_group_val_bound(s: Seq<char>)
    requires
        all_digits(s),
    ensures
        s.len() <= 4 ==> group_val(s) <= 9999,
        s.len() <= 3 ==> group_val(s) <= 999,
        s.len() <= 2 ==> group_val(s) <= 99,
        s.len() <= 1 ==> group_val(s) <= 9,
    decreases s.len(),
{
    if s.len() > 0 {
        assert(all_digits(s.drop_last())) by {
            assert(forall|i: int|
                0 <= i < s.len() - 1 ==> s.drop_last()[i] == #[trigger] s[i]);
        }
        lemma_group_val_bound(s.drop_last());
        assert(digit_val(s.last()) <= 9);
    }
}

/// The colon-separated fields read from `s`, given the digits `cur` of the
/// field under way and the fields `acc` already read; `None` when some field
/// is empty, longer than four characters, or not all digits.
pub open spec fn parse_groups(s: Seq<char>, cur: Seq<char>, acc: Seq<u16>) -> Option<Seq<u16>>
    decreases s.len(),
{
    if s.len() == 0 {
        if valid_group(cur) {
            Some(acc.push(group_val(cur) as u16))
        } else {
            None
        }
    } else if s[0] == ':' {
        if valid_group(cur) {
            parse_groups(s.drop_first(), Seq::empty(), acc.push(group_val(cur) as u16))
        } else {
            None
        }
    } else {
        parse_groups(s.drop_first(), cur.push(s[0]), acc)
    }
}

/// The mathematical value of an allele identifier.
pub struct ClassIView {
    pub gene: char,
    pub fields: Seq<u16>,
}

/// The identifier written by `s`: a gene letter `A`, `B` or `C`, an optional
/// `*` separator, and one to four colon-separated numeric fields.  `None`
/// when `s` is not of that shape.
pub open spec fn spec_parse_class_i(s: Seq<char>) -> Option<ClassIView> {
    if s.len() == 0 {
        None
    } else {
        let gene = s[0];
        if gene == 'A' || gene == 'B' || gene == 'C' {
            let rest = s.drop_first();
            let body = if rest.len() > 0 && rest[0] == '*' {
                rest.drop_first()
            } else {
                rest
            };
            match parse_groups(body, Seq::empty(), Seq::empty()) {
                Some(fields) => if fields.len() <= 4 {
                    Some(ClassIView { gene, fields })
                } else {
                    None
                },
                None => None,
            }
        } else {
            None
        }
    }
}

/// An HLA class I allele identifier, at any nomenclature resolution.
#[derive(Debug, Hash)]
pub struct ClassI {
    pub gene: char,
    pub fields: Vec<u16>,
}

impl View for ClassI {
    type V = ClassIView;

    open spec fn view(&self) -> ClassIView {
        ClassIView { gene: self.gene, fields: self.fields@ }
    }
}

impl ClassI {
    /// Well-formed: a real gene letter, one to four fields, each at most four
    /// digits wide.
    pub open spec fn wf(self) -> bool {
        &&& (self.gene == 'A' || self.gene == 'B' || self.gene == 'C')
        &&& 1 <= self.fields@.len() <= 4
        &&& forall|i: int| 0 <= i < self.fields@.len() ==> #[trigger] self.fields@[i] <= 9999
    }

    /// Parses an allele identifier.  `None` exactly when the text is not a
    /// gene letter, an optional `*`, and one to four numeric fields.
    pub fn parse(s: &str) -> (r: Option<ClassI>)
        ensures
            match r {
                Some(c) => spec_parse_class_i(s@) == Some(c@) && c.wf(),
                None => spec_parse_class_i(s@) is None,
            },
    {
        let n = s.unicode_len();
        if n == 0 {
            return None;
        }
        let gene = s.get_char(0);
        if !(gene == 'A' || gene == 'B' || gene == 'C') {
            return None;
        }
        let mut i: usize = 1;
        proof {
            assert(s@.drop_first() =~= s@.skip(1));
            if n >= 2 {
                assert(s@.drop_first()[0] == s@[1]);
            }
        }
        if n >= 2 && s.get_char(1) == '*' {
            i = 2;
            proof {
                assert(s@.drop_first().drop_first() =~= s@.skip(2));
            }
        }
        let ghost body = s@.skip(i as int);
        let mut fields: Vec<u16> = Vec::new();
        let ghost mut cur = Seq::<char>::empty();
        let mut cur_len: usize = 0;
        let mut cur_ok: bool = true;
        let mut val: u16 = 0;
        let mut j: usize = i;
        proof {
            assert(s@.skip(i as int) =~= body);
            assert(spec_parse_class_i(s@) == (match parse_groups(
                body,
                Seq::empty(),
                Seq::empty(),
            ) {
                Some(fs) => if fs.len() <= 4 {
                    Some(ClassIView { gene: s@[0], fields: fs })
                } else {
                    None
                },
                None => None,
            }));
        }
        while j < n
            invariant
                i <= j <= n,
                n == s@.len(),
                gene == s@[0],
                spec_parse_class_i(s@) == (match parse_groups(body, Seq::empty(), Seq::empty()) {
                    Some(fs) => if fs.len() <= 4 {
                        Some(ClassIView { gene: s@[0], fields: fs })
                    } else {
                        None
                    },
                    None => None,
                }),
                parse_groups(body, Seq::empty(), Seq::empty()) == parse_groups(
                    s@.skip(j as int),
                    cur,
                    fields@,
                ),
                cur_len == cur.len(),
                cur_len <= j,
                cur_ok == all_digits(cur),
                cur_ok && cur_len <= 4 ==> val == group_val(cur),
                forall|m: int| 0 <= m < fields@.len() ==> #[trigger] fields@[m] <= 9999,
            decreases n - j,
        {
            let c = s.get_char(j);
            proof {
                assert(s@.skip(j as int)[0] == s@[j as int]);
                assert(s@.skip(j as int).drop_first() =~= s@.skip(j as int + 1));
            }
            if c == ':' {
                if cur_ok && 1 <= cur_len && cur_len <= 4 {
                    proof {
                        lemma_group_val_bound(cur);
                    }
                    fields.push(val);
                    proof {
                        cur = Seq::<char>::empty();
                    }
                    cur_len = 0;
                    cur_ok = true;
                    val = 0;
                } else {
                    return None;
                }
            } else {
                let u = c as u32;
                let d_ok = 0x30 <= u && u <= 0x39;
                proof {
                    assert(cur.push(c).last() == c);
                    assert(cur.push(c).drop_last() =~= cur);
                    if cur_ok && d_ok {
                        assert(all_digits(cur.push(c))) by {
                            assert(forall|m: int|
                                0 <= m < cur.len() ==> cur.push(c)[m] == #[trigger] cur[m]);
                        }
                    }
                    if !(cur_ok && d_ok) {
                        assert(!all_digits(cur.push(c))) by {
                            if !cur_ok {
                                let w = choose|m: int|
                                    0 <= m < cur.len() && !is_digit(#[trigger] cur[m]);
                                assert(cur.push(c)[w] == cur[w]);
                            } else {
                                assert(cur.push(c)[cur.len() as int] == c);
                            }
                        }
                    }
                }
                if cur_ok && d_ok && cur_len <= 3 {
                    proof {
                        lemma_group_val_bound(cur);
                    }
                    let d = (u - 0x30) as u16;
                    val = val * 10 + d;
                } else {
                    val = 0;
                }
                proof {
                    cur = cur.push(c);
                }
                cur_ok = cur_ok && d_ok;
                cur_len = cur_len + 1;
            }
            j = j + 1;
        }
        proof {
            assert(s@.skip(n as int) =~= Seq::<char>::empty());
        }
        if cur_ok && 1 <= cur_len && cur_len <= 4 && fields.len() <= 3 {
            proof {
                lemma_group_val_bound(cur);
            }
            fields.push(val);
            let c = ClassI { gene, fields };
            Some(c)
        } else {
            None
        }
    }

    /// The allele written back in canonical form has the same value; two
    /// identifiers are the same allele exactly when gene and fields agree.
    pub fn same_allele(&self, other: &ClassI) -> (r: bool)
        ensures
            r == (self@ == other@),
    {
        if self.gene != other.gene {
            return false;
        }
        if self.fields.len() != other.fields.len() {
            proof {
                assert(self@.fields.len() != other@.fields.len());
            }
            return false;
        }
        let n = self.fields.len();
        let mut k: usize = 0;
        while k < n
            invariant
                k <= n,
                n == self.fields@.len(),
                n == other.fields@.len(),
                forall|m: int| 0 <= m < k ==> self.fields@[m] == other.fields@[m],
            decreases n - k,
        {
            if self.fields[k] != other.fields[k] {
                return false;
            }
            k = k + 1;
        }
        proof {
            assert(self.fields@ =~= other.fields@);
        }
        true
    }

    /// The gene locus letter.
    pub fn gene(&self) -> (r: char)
        ensures
            r == self@.gene,
    {
        self.gene
    }

    /// The numeric nomenclature fields, most general first.
    pub fn fields(&self) -> (r: &Vec<u16>)
        ensures
            r@ == self@.fields,
    {
        &self.fields
    }

    /// The identifier's canonical text: gene, `*`, and the fields in
    /// decimal, zero-padded to at least two digits and colon-separated.
    pub fn as_text(&self) -> (r: String)
        ensures
            r@ == class_i_text(self@),
    {
        let mut out: Vec<char> = Vec::new();
        out.push(self.gene);
        out.push('*');
        let ghost head = seq![self@.gene, '*'];
        let n = self.fields.len();
        let mut k: usize = 0;
        proof {
            assert(out@ =~= head + fields_text(self.fields@.take(0)));
        }
        while k < n
            invariant
                k <= n,
                n == self.fields@.len(),
                head == seq![self@.gene, '*'],
                out@ == head + fields_text(self.fields@.take(k as int)),
            decreases n - k,
        {
            if k > 0 {
                out.push(':');
            }
            push_group(&mut out, self.fields[k]);
            proof {
                let t1 = self.fields@.take(k as int + 1);
                assert(t1.drop_last() =~= self.fields@.take(k as int));
                assert(t1.last() == self.fields@[k as int]);
                if k == 0 {
                    assert(out@ =~= head + fields_text(t1));
                } else {
                    assert(fields_text(t1) == fields_text(self.fields@.take(k as int)) + seq![':']
                        + group_text(self.fields@[k as int]));
                    assert(out@ =~= head + fields_text(t1));
                }
            }
            k = k + 1;
        }
        proof {
            assert(self.fields@.take(n as int) =~= self.fields@);
        }
        crate::text::string_from_chars(&out)
    }
}

/// The character of a decimal digit value.
pub open spec fn digit_char(d: nat) -> char {
    ((d + 0x30) as u8) as char
}

/// A field written in decimal, zero-padded to at least two digits.
pub open spec fn group_text(n: u16) -> Seq<char> {
    if n < 10 {
        seq!['0', digit_char(n as nat)]
    } else if n < 100 {
        seq![digit_char((n / 10) as nat), digit_char((n % 10) as nat)]
    } else if n < 1000 {
        seq![
            digit_char((n / 100) as nat),
            digit_char(((n / 10) % 10) as nat),
            digit_char((n % 10) as nat),
        ]
    } else if n < 10000 {
        seq![
            digit_char((n / 1000) as nat),
            digit_char(((n / 100) % 10) as nat),
            digit_char(((n / 10) % 10) as nat),
            digit_char((n % 10) as nat),
        ]
    } else {
        seq![
            digit_char((n / 10000) as nat),
            digit_char(((n / 1000) % 10) as nat),
            digit_char(((n / 100) % 10) as nat),
            digit_char(((n / 10) % 10) as nat),
            digit_char((n % 10) as nat),
        ]
    }
}

/// The fields written out, colon-separated.
pub open spec fn fields_text(fs: Seq<u16>) -> Seq<char>
    decreases fs.len(),
{
    if fs.len() == 0 {
        Seq::empty()
    } else if fs.len() == 1 {
        group_text(fs[0])
    } else {
        fields_text(fs.drop_last()) + seq![':'] + group_text(fs.last())
    }
}

/// The canonical text of an identifier: gene, `*`, and the fields.
pub open spec fn class_i_text(v: ClassIView) -> Seq<char> {
    seq![v.gene, '*'] + fields_text(v.fields)
}

/// One digit as a character.
fn push_digit(out: &mut Vec<char>, d: u16)
    requires
        d <= 9,
    ensures
        final(out)@ == old(out)@.push(digit_char(d as nat)),
{
    let c = (d as u8 + 0x30) as char;
    proof {
        assert(c == digit_char(d as nat));
    }
    out.push(c);
}

/// One field in decimal, zero-padded to at least two digits.
fn push_group(out: &mut Vec<char>, n: u16)
    ensures
        final(out)@ == old(out)@ + group_text(n),
{
    let ghost before = out@;
    if n < 10 {
        out.push('0');
        push_digit(out, n);
    } else if n < 100 {
        push_digit(out, n / 10);
        push_digit(out, n % 10);
    } else if n < 1000 {
        push_digit(out, n / 100);
        push_digit(out, (n / 10) % 10);
        push_digit(out, n % 10);
    } else if n < 10000 {
        push_digit(out, n / 1000);
        push_digit(out, (n / 100) % 10);
        push_digit(out, (n / 10) % 10);
        push_digit(out, n % 10);
    } else {
        push_digit(out, n / 10000);
        push_digit(out, (n / 1000) % 10);
        push_digit(out, (n / 100) % 10);
        push_digit(out, (n / 10) % 10);
        push_digit(out, n % 10);
    }
    proof {
        assert(out@ =~= before + group_text(n));
    }
}

impl Clone for ClassI {
    /// An equal identifier, field for field.
    fn clone(&self) -> (r: Self)
        ensures
            r@ == self@,
    {
        let mut fields: Vec<u16> = Vec::new();
        let n = self.fields.len();
        let mut k: usize = 0;
        proof {
            assert(self.fields@.take(0) =~= Seq::<u16>::empty());
        }
        while k < n
            invariant
                k <= n,
                n == self.fields@.len(),
                fields@ == self.fields@.take(k as int),
            decreases n - k,
        {
            fields.push(self.fields[k]);
            proof {
                assert(self.fields@.take(k as int + 1).drop_last() =~= self.fields@.take(
                    k as int,
                ));
                assert(self.fields@.take(k as int + 1).last() == self.fields@[k as int]);
            }
            k = k + 1;
        }
        proof {
            assert(self.fields@.take(n as int) =~= self.fields@);
        }
        ClassI { gene: self.gene, fields }
    }
}

impl PartialEq for ClassI {
    fn eq(&self, other: &ClassI) -> (r: bool) {
        self.same_allele(other)
    }
}

impl Eq for ClassI {

}

impl vstd::std_specs::cmp::PartialEqSpecImpl for ClassI {
    open spec fn obeys_eq_spec() -> bool {
        true
    }

    open spec fn eq_spec(&self, other: &ClassI) -> bool {
        self@ == other@
    }
}

} // verus!
