//! Format parsers: one per supported external tool output format.  Each
//! parser turns raw stdout text into the candidate records of its format,
//! never failing on malformed input — lines that do not fit the format are
//! skipped.

use vstd::prelude::*;
use crate::bssid;
use crate::record;
use crate::record::RecordModel;
use crate::record::WifiRecord;
use crate::text;

verus! {

/// The supported raw-output formats.  The mapping from scanning tool to
/// format is fixed per adapter; no format sniffing is performed.
pub enum LineFormat {
    /// One network per line in whitespace-separated columns, with a header
    /// line first.  When `name_first` is set the columns are name, address,
    /// signal; otherwise address, name, signal.
    Tabular { name_first: bool },
    /// Free-form lines; a line contributes the trimmed remainder after the
    /// first occurrence of `marker` as its candidate address.
    KeyPrefixed { marker: String },
    /// Section-header lines of the form `BSS <address>(on ...)`: the second
    /// whitespace-separated token, with the trailing parenthetical marker
    /// stripped, is the candidate address.
    SectionHeader,
}

/// The model of a format: the marker as a character sequence.
pub ghost enum FormatModel {
    Tabular { name_first: bool },
    KeyPrefixed { marker: Seq<char> },
    SectionHeader,
}

impl View for LineFormat {
    type V = FormatModel;

    open spec fn view(&self) -> FormatModel {
        match self {
            LineFormat::Tabular { name_first } => FormatModel::Tabular { name_first: *name_first },
            LineFormat::KeyPrefixed { marker } => FormatModel::KeyPrefixed { marker: marker@ },
            LineFormat::SectionHeader => FormatModel::SectionHeader,
        }
    }
}

/// The first token of a section-header line.
pub open spec fn bss_token() -> Seq<char> {
    "BSS"@
}

/// The trailing parenthetical marker of a section-header address token.
pub open spec fn paren_marker() -> Seq<char> {
    "(on"@
}

/// Candidate of one tabular line: at least two columns, the address column
/// a valid BSSID; the signal column is empty when absent.
pub open spec fn tabular_line_candidate(line: Seq<char>, name_first: bool) -> Option<RecordModel> {
    let toks = text::tokens_spec(line);
    if toks.len() < 2 {
        None
    } else {
        let b = if name_first {
            toks[1]
        } else {
            toks[0]
        };
        let s = if name_first {
            toks[0]
        } else {
            toks[1]
        };
        let g = if toks.len() >= 3 {
            toks[2]
        } else {
            Seq::<char>::empty()
        };
        if bssid::valid_bssid_seq(b) {
            Some(RecordModel { ssid: s, bssid: b, signal: g })
        } else {
            None
        }
    }
}

/// Candidate of one key-prefixed line: the trimmed remainder after the
/// first occurrence of the marker, when it is a valid BSSID.  This format
/// cannot associate a network name, so the sentinel name is used.
pub open spec fn key_line_candidate(line: Seq<char>, marker: Seq<char>) -> Option<RecordModel> {
    match text::first_match(line, marker) {
        None => None,
        Some(i) => {
            let cand = text::trim_spec(line.subrange(i + marker.len(), line.len() as int));
            if bssid::valid_bssid_seq(cand) {
                Some(
                    RecordModel {
                        ssid: record::unknown_ssid(),
                        bssid: cand,
                        signal: Seq::<char>::empty(),
                    },
                )
            } else {
                None
            }
        },
    }
}

/// Candidate of one section-header line: the second token with the
/// trailing parenthetical marker stripped, when it is a valid BSSID.  This
/// format cannot associate a network name either.
pub open spec fn section_line_candidate(line: Seq<char>) -> Option<RecordModel> {
    let toks = text::tokens_spec(line);
    if toks.len() >= 2 && toks[0] == bss_token() {
        let cand = text::strip_suffix_rep(toks[1], paren_marker());
        if bssid::valid_bssid_seq(cand) {
            Some(
                RecordModel {
                    ssid: record::unknown_ssid(),
                    bssid: cand,
                    signal: Seq::<char>::empty(),
                },
            )
        } else {
            None
        }
    } else {
        None
    }
}

/// Candidate of one line under the given format.
pub open spec fn line_candidate(fmt: FormatModel, line: Seq<char>) -> Option<RecordModel> {
    match fmt {
        FormatModel::Tabular { name_first } => tabular_line_candidate(line, name_first),
        FormatModel::KeyPrefixed { marker } => key_line_candidate(line, marker),
        FormatModel::SectionHeader => section_line_candidate(line),
    }
}

/// How many leading lines of the format carry no data: the tabular format
/// has a header line, the others none.
pub open spec fn header_lines(fmt: FormatModel) -> int {
    match fmt {
        FormatModel::Tabular { .. } => 1,
        _ => 0,
    }
}

/// The candidates of the lines `ls` under the format, in line order.
pub open spec fn lines_candidates(ls: Seq<Seq<char>>, fmt: FormatModel) -> Seq<RecordModel>
    decreases ls.len(),
{
    if ls.len() == 0 {
        Seq::empty()
    } else {
        (match line_candidate(fmt, ls[0]) {
            Some(m) => seq![m],
            None => Seq::<RecordModel>::empty(),
        }) + lines_candidates(ls.drop_first(), fmt)
    }
}

/// All candidates a format parser yields for the raw text: its data lines,
/// in order, those that fit the format.
pub open spec fn format_candidates(fmt: FormatModel, raw: Seq<char>) -> Seq<RecordModel> {
    lines_candidates(text::lines_spec(raw).skip(header_lines(fmt)), fmt)
}

/// Parsing is deterministic and free of hidden state: the candidate list
/// is a function of the format and the raw text alone, so equal inputs
/// parse to equal candidate lists however often and in whatever order the
/// parser runs.
pub proof fn lemma_parsing_deterministic(fmt: FormatModel, raw1: Seq<char>, raw2: Seq<char>)
    requires
        raw1 == raw2,
    ensures
        format_candidates(fmt, raw1) == format_candidates(fmt, raw2),
{
}

/// Unfolds `lines_candidates` at line `i`.
proof fn lemma_lines_candidates_step(ls: Seq<Seq<char>>, fmt: FormatModel, i: int)
    requires
        0 <= i < ls.len(),
    ensures
        lines_candidates(ls.skip(i), fmt) == (match line_candidate(fmt, ls[i]) {
            Some(m) => seq![m],
            None => Seq::<RecordModel>::empty(),
        }) + lines_candidates(ls.skip(i + 1), fmt),
{
    assert(ls.skip(i)[0] == ls[i]);
    assert(ls.skip(i).drop_first() =~= ls.skip(i + 1));
}

/// Every candidate any format yields has a valid hardware address.
pub proof fn lemma_lines_candidates_valid(ls: Seq<Seq<char>>, fmt: FormatModel)
    ensures
        forall|k: int|
            0 <= k < lines_candidates(ls, fmt).len() ==> record::valid_candidate(
                #[trigger] lines_candidates(ls, fmt)[k],
            ),
    decreases ls.len(),
{
    if ls.len() > 0 {
        lemma_lines_candidates_valid(ls.drop_first(), fmt);
        let head = (match line_candidate(fmt, ls[0]) {
            Some(m) => seq![m],
            None => Seq::<RecordModel>::empty(),
        });
        let rest = lines_candidates(ls.drop_first(), fmt);
        assert forall|k: int|
            0 <= k < lines_candidates(ls, fmt).len() implies record::valid_candidate(
            lines_candidates(ls, fmt)[k],
        ) by {
            if k < head.len() {
                assert(lines_candidates(ls, fmt)[k] == head[0]);
            } else {
                assert(lines_candidates(ls, fmt)[k] == rest[k - head.len()]);
            }
        }
    }
}

/// Computes the candidate of one line, exactly as `line_candidate` says.
fn line_candidate_exec(fmt: &LineFormat, line: &[char]) -> (r: Option<WifiRecord>)
    ensures
        match r {
            Some(rec) => {
                &&& line_candidate(fmt@, line@) == Some(rec@)
                &&& record::valid_candidate(rec@)
            },
            None => line_candidate(fmt@, line@) is None,
        },
{
    match fmt {
        LineFormat::Tabular { name_first } => {
            let toks = text::split_tokens(line);
            if toks.len() < 2 {
                return None;
            }
            let b_idx: usize = if *name_first {
                1
            } else {
                0
            };
            let s_idx: usize = if *name_first {
                0
            } else {
                1
            };
            proof {
                assert(toks.deep_view()[b_idx as int] == toks[b_idx as int]@);
                assert(toks.deep_view()[s_idx as int] == toks[s_idx as int]@);
            }
            if !bssid::is_valid_bssid(toks[b_idx].as_str()) {
                return None;
            }
            let signal: String = if toks.len() >= 3 {
                proof {
                    assert(toks.deep_view()[2] == toks[2]@);
                }
                toks[2].clone()
            } else {
                String::new()
            };
            Some(WifiRecord { ssid: toks[s_idx].clone(), bssid: toks[b_idx].clone(), signal })
        },
        LineFormat::KeyPrefixed { marker } => {
            let mk = text::to_chars(marker.as_str());
            match text::find_pattern(line, mk.as_slice()) {
                None => None,
                Some(i) => {
                    let llen = line.len();
                    let start = i + mk.len();
                    proof {
                        assert(line@.subrange(start as int, line@.len() as int) =~= line@.skip(
                            start as int,
                        ));
                    }
                    let (lo, hi) = text::trim_range(line, start, llen);
                    if bssid::valid_bssid_range(line, lo, hi) {
                        Some(
                            WifiRecord {
                                ssid: record::unknown_ssid_string(),
                                bssid: text::chars_to_string(line, lo, hi),
                                signal: String::new(),
                            },
                        )
                    } else {
                        None
                    }
                },
            }
        },
        LineFormat::SectionHeader => {
            let toks = text::split_tokens(line);
            if toks.len() < 2 {
                return None;
            }
            proof {
                assert(toks.deep_view()[0] == toks[0]@);
                assert(toks.deep_view()[1] == toks[1]@);
            }
            if !text::str_eq(toks[0].as_str(), "BSS") {
                return None;
            }
            let tv = text::to_chars(toks[1].as_str());
            let pm = text::to_chars("(on");
            proof {
                assert(pm@.len() == 3) by {
                    reveal_strlit("(on");
                }
                assert(tv@.subrange(0, tv@.len() as int) =~= toks[1]@);
            }
            let end = text::strip_suffix_rep_end(tv.as_slice(), 0, tv.len(), pm.as_slice());
            if bssid::valid_bssid_range(tv.as_slice(), 0, end) {
                Some(
                    WifiRecord {
                        ssid: record::unknown_ssid_string(),
                        bssid: text::chars_to_string(tv.as_slice(), 0, end),
                        signal: String::new(),
                    },
                )
            } else {
                None
            }
        },
    }
}

/// Parses the raw output of one scanning tool under the given format.
///
/// The result is exactly the format's candidate list for this text — a
/// function of the input alone, so parsing is deterministic — and every
/// candidate carries a syntactically valid hardware address.  Malformed
/// lines contribute nothing and abort nothing.
#[verifier::loop_isolation(false)]
#[verifier::rlimit(30)]
pub fn parse_output(fmt: &LineFormat, raw: &str) -> (r: Vec<WifiRecord>)
    ensures
        r.deep_view() == format_candidates(fmt@, raw@),
        forall|k: int|
            0 <= k < r.deep_view().len() ==> record::valid_candidate(#[trigger] r.deep_view()[k]),
{
    let cv = text::to_chars(raw);
    let lines = text::split_lines(cv.as_slice());
    let ghost ls_all = text::lines_spec(raw@);
    let ghost skip0 = header_lines(fmt@);
    let ghost ls = ls_all.skip(skip0);
    proof {
        assert(ls_all.len() >= 1);
    }
    let mut out: Vec<WifiRecord> = Vec::new();
    let mut li: usize = match fmt {
        LineFormat::Tabular { .. } => 1,
        _ => 0,
    };
    proof {
        assert(li as int == skip0);
        assert(ls.skip(0) =~= ls);
        assert(out.deep_view() + lines_candidates(ls, fmt@) =~= lines_candidates(ls, fmt@));
    }
    while li < lines.len()
        invariant
            skip0 <= li as int <= ls_all.len() || (li as int == skip0 && ls_all.len() == 0),
            out.deep_view() + lines_candidates(ls.skip(li - skip0), fmt@) == lines_candidates(
                ls,
                fmt@,
            ),
        decreases lines@.len() - li,
    {
        let line = &lines[li];
        proof {
            assert(line.deep_view() =~= line@);
            assert(ls[li - skip0] == ls_all[li as int]);
            assert(ls_all[li as int] == lines.deep_view()[li as int]);
        }
        let cand = line_candidate_exec(fmt, line.as_slice());
        proof {
            lemma_lines_candidates_step(ls, fmt@, li - skip0);
        }
        match cand {
            Some(rec) => {
                let ghost old_dv = out.deep_view();
                out.push(rec);
                proof {
                    assert(out.deep_view() =~= old_dv.push(rec@));
                    assert(old_dv.push(rec@) + lines_candidates(ls.skip(li + 1 - skip0), fmt@)
                        =~= old_dv + (seq![rec@] + lines_candidates(ls.skip(li + 1 - skip0), fmt@)));
                }
            },
            None => {
                proof {
                    assert(lines_candidates(ls.skip(li - skip0), fmt@) =~= Seq::<
                        RecordModel,
                    >::empty() + lines_candidates(ls.skip(li + 1 - skip0), fmt@));
                    assert(Seq::<RecordModel>::empty() + lines_candidates(
                        ls.skip(li + 1 - skip0),
                        fmt@,
                    ) =~= lines_candidates(ls.skip(li + 1 - skip0), fmt@));
                }
            },
        }
        li += 1;
    }
    proof {
        assert(ls.skip(li - skip0) =~= Seq::<Seq<char>>::empty());
        assert(out.deep_view() =~= lines_candidates(ls, fmt@));
        lemma_lines_candidates_valid(ls, fmt@);
    }
    out
}

} // verus!
