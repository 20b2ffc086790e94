use vstd::prelude::*;

use crate::datetime::{epoch_in_range, shaped_datetime};
use crate::record::{rec_views, CommitInfo, CommitInfoVec, CommitInfoView};
use crate::strutil::{dec_seq, dec_string, push_char, str_views};

verus! {

/// Whether a field must be quoted: it holds a comma, a quote or a
/// line break.
pub open spec fn needs_quote(s: Seq<char>) -> bool {
    exists|i: int| 0 <= i < s.len() && ((#[trigger] s[i]) == ',' || s[i] == '"' || s[i] == '\n'
        || s[i] == '\r')
}

/// The field's characters with every quote written twice.
pub open spec fn doubled_quotes(s: Seq<char>) -> Seq<char>
    decreases s.len(),
{
    if s.len() == 0 {
        Seq::empty()
    } else if s.last() == '"' {
        doubled_quotes(s.drop_last()) + seq!['"', '"']
    } else {
        doubled_quotes(s.drop_last()).push(s.last())
    }
}

/// A field as written: quoted with doubled quotes when it needs it,
/// bare otherwise.
pub open spec fn csv_field(s: Seq<char>) -> Seq<char> {
    if needs_quote(s) {
        seq!['"'] + doubled_quotes(s) + seq!['"']
    } else {
        s
    }
}

/// A record's fields joined by commas.
pub open spec fn csv_line(fields: Seq<Seq<char>>) -> Seq<char>
    decreases fields.len(),
{
    if fields.len() == 0 {
        Seq::empty()
    } else if fields.len() == 1 {
        csv_field(fields[0])
    } else {
        csv_line(fields.drop_last()) + seq![','] + csv_field(fields.last())
    }
}

/// A document: one line per record, each closed by a line feed.
pub open spec fn csv_doc(rows: Seq<Seq<Seq<char>>>) -> Seq<char>
    decreases rows.len(),
{
    if rows.len() == 0 {
        Seq::empty()
    } else {
        csv_doc(rows.drop_last()) + csv_line(rows.last()) + seq!['\n']
    }
}

/// The field rows of a list of field lists.
pub open spec fn row_views(d: Seq<Vec<String>>) -> Seq<Seq<Seq<char>>> {
    d.map_values(|v: Vec<String>| str_views(v@))
}

fn needs_quote_exec(s: &str) -> (r: bool)
    ensures
        r == needs_quote(s@),
{
    let len = s.unicode_len();
    let mut i: usize = 0;
    while i < len
        invariant
            len == s@.len(),
            i <= len,
            forall|j: int| 0 <= j < i ==> !((#[trigger] s@[j]) == ',' || s@[j] == '"' || s@[j]
                == '\n' || s@[j] == '\r'),
        decreases len - i,
    {
        let c = s.get_char(i);
        if c == ',' || c == '"' || c == '\n' || c == '\r' {
            return true;
        }
        i = i + 1;
    }
    false
}

/// Writes one field as the document shows it.
pub fn csv_field_exec(s: &str) -> (r: String)
    ensures
        r@ == csv_field(s@),
{
    if !needs_quote_exec(s) {
        return s.to_owned();
    }
    let len = s.unicode_len();
    let mut r = String::new();
    push_char(&mut r, '"');
    let mut i: usize = 0;
    proof {
        assert(s@.take(0) =~= Seq::<char>::empty());
        assert(r@ =~= seq!['"'] + doubled_quotes(s@.take(0)));
    }
    while i < len
        invariant
            len == s@.len(),
            i <= len,
            r@ == seq!['"'] + doubled_quotes(s@.take(i as int)),
        decreases len - i,
    {
        let c = s.get_char(i);
        proof {
            assert(s@.take(i + 1).drop_last() =~= s@.take(i as int));
            assert(s@.take(i + 1).last() == s@[i as int]);
        }
        if c == '"' {
            push_char(&mut r, '"');
            push_char(&mut r, '"');
            proof {
                assert(r@ =~= seq!['"'] + doubled_quotes(s@.take(i + 1)));
            }
        } else {
            push_char(&mut r, c);
            proof {
                assert(r@ =~= seq!['"'] + doubled_quotes(s@.take(i + 1)));
            }
        }
        i = i + 1;
    }
    push_char(&mut r, '"');
    proof {
        assert(s@.take(len as int) =~= s@);
        assert(r@ =~= seq!['"'] + doubled_quotes(s@) + seq!['"']);
    }
    r
}

/// Writes one record's fields as a comma-separated line.
pub fn csv_line_exec(fields: &Vec<String>) -> (r: String)
    ensures
        r@ == csv_line(str_views(fields@)),
{
    let ghost gf = str_views(fields@);
    if fields.len() == 0 {
        let r = String::new();
        proof {
            assert(r@ =~= csv_line(gf));
        }
        return r;
    }
    let mut r = csv_field_exec(fields[0].as_str());
    proof {
        assert(gf.take(1) =~= seq![gf[0]]);
        assert(r@ == csv_line(gf.take(1)));
    }
    let mut i: usize = 1;
    while i < fields.len()
        invariant
            1 <= i <= fields.len(),
            gf == str_views(fields@),
            gf.len() == fields@.len(),
            forall|k: int| 0 <= k < gf.len() ==> gf[k] == #[trigger] fields@[k]@,
            r@ == csv_line(gf.take(i as int)),
        decreases fields.len() - i,
    {
        push_char(&mut r, ',');
        let f = csv_field_exec(fields[i].as_str());
        r.append(f.as_str());
        proof {
            assert(gf.take(i + 1).drop_last() =~= gf.take(i as int));
            assert(gf.take(i + 1).last() == gf[i as int]);
            assert(r@ =~= csv_line(gf.take(i + 1)));
        }
        i = i + 1;
    }
    proof {
        assert(gf.take(fields@.len() as int) =~= gf);
    }
    r
}

/// Writes a whole document: the header line, then one line per
/// record.
pub fn csv_text(header: &Vec<String>, data: &Vec<Vec<String>>) -> (r: String)
    ensures
        r@ == csv_doc(seq![str_views(header@)] + row_views(data@)),
{
    let ghost hv = str_views(header@);
    let ghost dv = row_views(data@);
    let mut r = csv_line_exec(header);
    push_char(&mut r, '\n');
    proof {
        assert((seq![hv] + dv.take(0)).drop_last() =~= Seq::<Seq<Seq<char>>>::empty());
        assert((seq![hv] + dv.take(0)).last() == hv);
        assert(csv_doc(Seq::<Seq<Seq<char>>>::empty()) == Seq::<char>::empty());
        assert(r@ =~= csv_doc(seq![hv] + dv.take(0)));
    }
    let mut i: usize = 0;
    while i < data.len()
        invariant
            i <= data.len(),
            hv == str_views(header@),
            dv == row_views(data@),
            dv.len() == data@.len(),
            forall|k: int| 0 <= k < dv.len() ==> dv[k] == str_views(#[trigger] data@[k]@),
            r@ == csv_doc(seq![hv] + dv.take(i as int)),
        decreases data.len() - i,
    {
        let line = csv_line_exec(&data[i]);
        r.append(line.as_str());
        push_char(&mut r, '\n');
        proof {
            assert((seq![hv] + dv.take(i + 1)).drop_last() =~= seq![hv] + dv.take(i as int));
            assert((seq![hv] + dv.take(i + 1)).last() == dv[i as int]);
            assert(r@ =~= csv_doc(seq![hv] + dv.take(i + 1)));
        }
        i = i + 1;
    }
    proof {
        assert(dv.take(data@.len() as int) =~= dv);
    }
    r
}

/// The detail document's column names.
pub open spec fn detail_header() -> Seq<Seq<char>> {
    seq![
        "repo"@,
        "date"@,
        "branch"@,
        "commit_id"@,
        "author"@,
        "message"@,
        "insertions"@,
        "deletions"@,
    ]
}

/// What stands in a detail row's date column for a record's date:
/// empty for a missing date; a local `YYYY-MM-DD HH:MM:SS` text,
/// never empty, for a date inside the calendar years 0001 through
/// 9999; and only for a date outside that range either of the two.
pub open spec fn date_text_ok(d: Seq<char>, date: Option<int>) -> bool {
    match date {
        None => d == Seq::<char>::empty(),
        Some(t) => if epoch_in_range(t) {
            shaped_datetime(d)
        } else {
            d == Seq::<char>::empty() || shaped_datetime(d)
        },
    }
}

/// One record's detail fields, with `d` in the date column.
pub open spec fn detail_fields(r: CommitInfoView, d: Seq<char>) -> Seq<Seq<char>> {
    seq![
        r.repo,
        d,
        r.branch,
        r.commit_id,
        r.author,
        r.message,
        dec_seq(r.insertions as nat),
        dec_seq(r.deletions as nat),
    ]
}

impl CommitInfo {
    /// The record's eight detail fields, in column order; the date
    /// column holds the record's local date text.
    pub fn detail_row(&self) -> (r: Vec<String>)
        ensures
            exists|d: Seq<char>| date_text_ok(d, self@.date) && str_views(r@)
                == #[trigger] detail_fields(self@, d),
    {
        let mut r: Vec<String> = Vec::new();
        r.push(self.repo.clone());
        let d = self.format_datetime();
        let ghost gd = d@;
        r.push(d);
        r.push(self.branch.clone());
        r.push(self.commit_id.clone());
        r.push(self.author.clone());
        r.push(self.message.clone());
        r.push(dec_string(self.insertions));
        r.push(dec_string(self.deletions));
        proof {
            assert(str_views(r@) =~= detail_fields(self@, gd));
            assert(date_text_ok(gd, self@.date));
        }
        r
    }
}

impl CommitInfoVec {
    /// The records written as a detail document: the header line,
    /// then one line per record in order, each row carrying the
    /// record's fields with its local date text.
    pub fn file_cursor(&self) -> (r: String)
        ensures
            exists|dates: Seq<Seq<char>>|
                {
                    &&& (#[trigger] dates.len()) == self.commit_info_vec@.len()
                    &&& forall|k: int| 0 <= k < dates.len() ==> date_text_ok(
                        #[trigger] dates[k],
                        rec_views(self.commit_info_vec@)[k].date,
                    )
                    &&& r@ == csv_doc(
                        seq![detail_header()] + Seq::new(
                            self.commit_info_vec@.len() as nat,
                            |k: int| detail_fields(rec_views(self.commit_info_vec@)[k], dates[k]),
                        ),
                    )
                },
    {
        let ghost s = rec_views(self.commit_info_vec@);
        let mut header: Vec<String> = Vec::new();
        header.push(String::from_str("repo"));
        header.push(String::from_str("date"));
        header.push(String::from_str("branch"));
        header.push(String::from_str("commit_id"));
        header.push(String::from_str("author"));
        header.push(String::from_str("message"));
        header.push(String::from_str("insertions"));
        header.push(String::from_str("deletions"));
        proof {
            assert(str_views(header@) =~= detail_header());
        }
        let mut data: Vec<Vec<String>> = Vec::new();
        let ghost mut dates: Seq<Seq<char>> = Seq::empty();
        let mut i: usize = 0;
        while i < self.commit_info_vec.len()
            invariant
                i <= self.commit_info_vec.len(),
                s == rec_views(self.commit_info_vec@),
                s.len() == self.commit_info_vec@.len(),
                forall|k: int| 0 <= k < s.len() ==> s[k] == #[trigger] self.commit_info_vec@[k]@,
                dates.len() == i,
                data@.len() == i,
                forall|k: int| 0 <= k < i ==> date_text_ok(#[trigger] dates[k], s[k].date),
                forall|k: int| 0 <= k < i ==> #[trigger] row_views(data@)[k] == detail_fields(
                    s[k],
                    dates[k],
                ),
            decreases self.commit_info_vec.len() - i,
        {
            let c = &self.commit_info_vec[i];
            let row = c.detail_row();
            let ghost rowv = row@;
            let ghost d = choose|d: Seq<char>|
                date_text_ok(d, c@.date) && str_views(row@) == #[trigger] detail_fields(c@, d);
            let ghost prevdata = data@;
            let ghost prevdates = dates;
            data.push(row);
            proof {
                dates = prevdates.push(d);
                assert(data@.len() == i + 1);
                assert(data@[i as int]@ == rowv);
                assert(row_views(data@)[i as int] == str_views(rowv));
                assert forall|k: int| 0 <= k < i + 1 implies #[trigger] row_views(data@)[k]
                    == detail_fields(s[k], dates[k]) by {
                    if k < i {
                        assert(data@[k] == prevdata[k]);
                        assert(row_views(prevdata)[k] == detail_fields(s[k], prevdates[k]));
                        assert(dates[k] == prevdates[k]);
                    }
                }
            }
            i = i + 1;
        }
        let r = csv_text(&header, &data);
        proof {
            let n = self.commit_info_vec@.len();
            assert(dates.len() == n);
            assert(Seq::new(n as nat, |k: int| detail_fields(s[k], dates[k])) =~= row_views(
                data@,
            ));
            assert(r@ == csv_doc(
                seq![detail_header()] + Seq::new(n as nat, |k: int| detail_fields(s[k], dates[k])),
            ));
        }
        r
    }
}

} // verus!
