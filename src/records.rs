//! The two source layouts, the unified output record, and the mapping from
//! one to the other.

use vstd::prelude::*;
use crate::amount::{amount_cents, convert_number_format, inflow_text, outflow_text, OutAndInflow};
use crate::date::{convert_dt_format, date_text};

verus! {

/// The two source layouts, told apart by the marker in a file's first field.
#[derive(Debug, Clone, Copy, PartialEq, Eq, Structural)]
pub enum SourceDialect {
    Debit,
    Credit,
}

/// A row of the checking-account layout.
pub struct DebitRecord {
    pub buchungstag: String,
    pub wertstellung: String,
    pub buchungstext: String,
    pub auftraggeber: String,
    pub verwendungszweck: String,
    pub kontonummer: String,
    pub blz: String,
    pub betrag: String,
    pub glaeubiger_id: String,
    pub mandatsref: String,
    pub kundenreg: String,
}

/// A row of the credit-card layout.
pub struct CreditRecord {
    pub abgerechnet: String,
    pub wertstellung: String,
    pub belegdatum: String,
    pub beschreibung: String,
    pub betrag: String,
    pub original_betrag: String,
}

/// A decoded source row of either layout.
pub enum RawRecord {
    Debit(DebitRecord),
    Credit(CreditRecord),
}

/// A row of the output layout.
pub struct OutputRecord {
    pub date: String,
    pub payee: String,
    pub category: String,
    pub memo: String,
    pub outflow: String,
    pub inflow: String,
}

/// What an output row holds.
pub struct UnifiedRow {
    pub date: Seq<char>,
    pub payee: Seq<char>,
    pub category: Seq<char>,
    pub memo: Seq<char>,
    pub outflow: Seq<char>,
    pub inflow: Seq<char>,
}

impl View for OutputRecord {
    type V = UnifiedRow;

    open spec fn view(&self) -> UnifiedRow {
        UnifiedRow {
            date: self.date@,
            payee: self.payee@,
            category: self.category@,
            memo: self.memo@,
            outflow: self.outflow@,
            inflow: self.inflow@,
        }
    }
}

/// The output row built from a source date, payee, memo and amount.
pub open spec fn unify(date_src: Seq<char>, payee: Seq<char>, memo: Seq<char>, amount_src: Seq<char>) -> UnifiedRow {
    UnifiedRow {
        date: date_text(date_src),
        payee,
        category: seq![],
        memo,
        outflow: outflow_text(amount_cents(amount_src)),
        inflow: inflow_text(amount_cents(amount_src)),
    }
}

pub open spec fn arity(d: SourceDialect) -> int {
    match d {
        SourceDialect::Debit => 11,
        SourceDialect::Credit => 6,
    }
}

/// A row has `n` fields, or `n` and an empty one that a trailing delimiter
/// left.
pub open spec fn fields_fit(f: Seq<Seq<char>>, n: int) -> bool {
    f.len() == n || (f.len() == n + 1 && f[n].len() == 0)
}

/// The output row for the fields of a well-formed row of a layout.
pub open spec fn fields_row(d: SourceDialect, f: Seq<Seq<char>>) -> UnifiedRow {
    match d {
        SourceDialect::Debit => unify(f[1], f[3], f[4], f[7]),
        SourceDialect::Credit => unify(f[1], seq![], f[3], f[4]),
    }
}

pub open spec fn raw_row(r: RawRecord) -> UnifiedRow {
    match r {
        RawRecord::Debit(d) => unify(d.wertstellung@, d.auftraggeber@, d.verwendungszweck@, d.betrag@),
        RawRecord::Credit(c) => unify(c.wertstellung@, seq![], c.beschreibung@, c.betrag@),
    }
}

/// The layout of a source record.
pub open spec fn raw_dialect(r: RawRecord) -> SourceDialect {
    match r {
        RawRecord::Debit(_) => SourceDialect::Debit,
        RawRecord::Credit(_) => SourceDialect::Credit,
    }
}

/// The fields of a source record, in the order of its layout.
pub open spec fn raw_fields(r: RawRecord) -> Seq<Seq<char>> {
    match r {
        RawRecord::Debit(d) => seq![
            d.buchungstag@,
            d.wertstellung@,
            d.buchungstext@,
            d.auftraggeber@,
            d.verwendungszweck@,
            d.kontonummer@,
            d.blz@,
            d.betrag@,
            d.glaeubiger_id@,
            d.mandatsref@,
            d.kundenreg@,
        ],
        RawRecord::Credit(c) => seq![
            c.abgerechnet@,
            c.wertstellung@,
            c.belegdatum@,
            c.beschreibung@,
            c.betrag@,
            c.original_betrag@,
        ],
    }
}

pub open spec fn strings_view(v: Seq<String>) -> Seq<Seq<char>> {
    v.map_values(|s: String| s@)
}

/// Builds an output row from the source fields that feed it; both layouts
/// go through here.
fn map_fields(date_src: &str, payee: String, memo: String, amount_src: &str) -> (r: OutputRecord)
    ensures
        r@ == unify(date_src@, payee@, memo@, amount_src@),
{
    let cents = match convert_number_format(amount_src) {
        Ok(v) => Some(v),
        Err(_) => None,
    };
    let flows = OutAndInflow::from_cents(cents);
    OutputRecord {
        date: convert_dt_format(date_src),
        payee,
        category: String::new(),
        memo,
        outflow: flows.outflow,
        inflow: flows.inflow,
    }
}

impl OutputRecord {
    /// Maps a source row to an output row. At most one of the outflow and
    /// inflow columns is non-empty.
    pub fn from_raw(r: RawRecord) -> (out: OutputRecord)
        ensures
            out@ == raw_row(r),
            out@.outflow.len() == 0 || out@.inflow.len() == 0,
    {
        let ghost src = r;
        let out = match r {
            RawRecord::Debit(d) => map_fields(d.wertstellung.as_str(), d.auftraggeber, d.verwendungszweck, d.betrag.as_str()),
            RawRecord::Credit(c) => map_fields(c.wertstellung.as_str(), String::new(), c.beschreibung, c.betrag.as_str()),
        };
        proof {
            match src {
                RawRecord::Debit(d) => lemma_flows_exclusive(
                    d.wertstellung@,
                    d.auftraggeber@,
                    d.verwendungszweck@,
                    d.betrag@,
                ),
                RawRecord::Credit(c) => lemma_flows_exclusive(
                    c.wertstellung@,
                    seq![],
                    c.beschreibung@,
                    c.betrag@,
                ),
            }
        }
        out
    }

    /// The six columns in output order.
    pub fn fields(&self) -> (r: Vec<String>)
        ensures
            strings_view(r@) == row_fields(self@),
    {
        let r = vec![
            self.date.clone(),
            self.payee.clone(),
            self.category.clone(),
            self.memo.clone(),
            self.outflow.clone(),
            self.inflow.clone(),
        ];
        assert(strings_view(r@) =~= row_fields(self@));
        r
    }
}

pub open spec fn row_fields(u: UnifiedRow) -> Seq<Seq<char>> {
    seq![u.date, u.payee, u.category, u.memo, u.outflow, u.inflow]
}

/// No output row has both an outflow and an inflow.
pub proof fn lemma_flows_exclusive(
    date_src: Seq<char>,
    payee: Seq<char>,
    memo: Seq<char>,
    amount_src: Seq<char>,
)
    ensures
        unify(date_src, payee, memo, amount_src).outflow.len() == 0 || unify(
            date_src,
            payee,
            memo,
            amount_src,
        ).inflow.len() == 0,
{
}

/// Reads a row's fields as a source record of a layout; `None` when the
/// number of fields does not fit the layout.
pub fn decode_row(dialect: SourceDialect, fields: &Vec<String>) -> (r: Option<RawRecord>)
    ensures
        r is Some <==> fields_fit(strings_view(fields@), arity(dialect)),
        r is Some ==> raw_row(r->0) == fields_row(dialect, strings_view(fields@)),
        r is Some ==> raw_dialect(r->0) == dialect,
        r is Some ==> raw_fields(r->0) == strings_view(fields@).subrange(0, arity(dialect)),
{
    let n: usize = match dialect {
        SourceDialect::Debit => 11,
        SourceDialect::Credit => 6,
    };
    let len = fields.len();
    let fits = len == n || (len == n + 1 && fields[n].unicode_len() == 0);
    if !fits {
        return None;
    }
    let ghost f = strings_view(fields@);
    match dialect {
        SourceDialect::Debit => {
            let rec = DebitRecord {
                buchungstag: fields[0].clone(),
                wertstellung: fields[1].clone(),
                buchungstext: fields[2].clone(),
                auftraggeber: fields[3].clone(),
                verwendungszweck: fields[4].clone(),
                kontonummer: fields[5].clone(),
                blz: fields[6].clone(),
                betrag: fields[7].clone(),
                glaeubiger_id: fields[8].clone(),
                mandatsref: fields[9].clone(),
                kundenreg: fields[10].clone(),
            };
            assert(f[1] == fields@[1]@ && f[3] == fields@[3]@ && f[4] == fields@[4]@ && f[7] == fields@[7]@);
            assert(raw_fields(RawRecord::Debit(rec)) =~= f.subrange(0, 11));
            Some(RawRecord::Debit(rec))
        },
        SourceDialect::Credit => {
            let rec = CreditRecord {
                abgerechnet: fields[0].clone(),
                wertstellung: fields[1].clone(),
                belegdatum: fields[2].clone(),
                beschreibung: fields[3].clone(),
                betrag: fields[4].clone(),
                original_betrag: fields[5].clone(),
            };
            assert(f[1] == fields@[1]@ && f[3] == fields@[3]@ && f[4] == fields@[4]@);
            assert(raw_fields(RawRecord::Credit(rec)) =~= f.subrange(0, 6));
            Some(RawRecord::Credit(rec))
        },
    }
}

} // verus!
