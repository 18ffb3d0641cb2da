//! Validation of a finding-feedback submission: a verdict is required, and
//! the finding is named either by its fingerprint or by the locating
//! `(file, title, category)` triple (line optional).

use vstd::prelude::*;
use crate::text::{copy_str, push_char, trim, trim_spec};

verus! {

/// The verdict a user gives on a finding.
#[derive(Debug, Clone, Copy, PartialEq, Eq, Structural)]
pub enum Verdict {
    Useful,
    FalsePositive,
}

/// A feedback submission as received.
#[derive(Debug)]
pub struct FeedbackRequest {
    pub finding_fingerprint: Option<String>,
    pub file: Option<String>,
    pub line: Option<u32>,
    pub title: Option<String>,
    pub category: Option<String>,
    pub verdict: Option<Verdict>,
    pub comment: Option<String>,
}

/// How the finding is named: its fingerprint, or the fields to compute it
/// from.
#[derive(Debug)]
pub enum FindingRef {
    Fingerprint(String),
    Locating { file: String, line: Option<u32>, title: String, category: String },
}

/// A valid submission.
#[derive(Debug)]
pub struct ValidFeedback {
    pub finding: FindingRef,
    pub verdict: Verdict,
    /// The comment, dropped when blank.
    pub comment: Option<String>,
    /// The category, dropped when blank.
    pub category: Option<String>,
}

/// Why a submission is refused (HTTP 400) and what to say.
#[derive(Debug)]
pub struct FeedbackError {
    pub message: String,
}

/// The text of an optional field, trimmed (empty when absent).
pub open spec fn trimmed_opt(v: Option<Seq<char>>) -> Seq<char> {
    match v {
        Some(s) => trim_spec(s),
        None => Seq::empty(),
    }
}

pub open spec fn opt_view(v: Option<String>) -> Option<Seq<char>> {
    match v {
        Some(s) => Some(s@),
        None => None,
    }
}

/// The names of the missing locating fields, comma separated.
pub open spec fn missing_list(file: bool, title: bool, category: bool) -> Seq<char> {
    let parts = (if file {
        seq!["file"@]
    } else {
        Seq::empty()
    }) + (if title {
        seq!["title"@]
    } else {
        Seq::empty()
    }) + (if category {
        seq!["category"@]
    } else {
        Seq::empty()
    });
    joined(parts)
}

/// `parts` joined with `", "`.
pub open spec fn joined(parts: Seq<Seq<char>>) -> Seq<char>
    decreases parts.len(),
{
    if parts.len() == 0 {
        Seq::empty()
    } else if parts.len() == 1 {
        parts[0]
    } else {
        joined(parts.drop_last()) + ", "@ + parts.last()
    }
}

/// A value kept only when it is not blank.
pub open spec fn non_blank(v: Option<Seq<char>>) -> Option<Seq<char>> {
    match v {
        Some(s) => if trim_spec(s).len() > 0 {
            Some(s)
        } else {
            None
        },
        None => None,
    }
}

/// The missing-field list names exactly the missing locating fields, in the
/// order file, title, category, separated by `", "`.
pub proof fn law_missing_list_names_the_missing_fields(file: bool, title: bool, category: bool)
    ensures
        missing_list(file, title, category) == (if file && title && category {
            "file, title, category"@
        } else if file && title {
            "file, title"@
        } else if file && category {
            "file, category"@
        } else if title && category {
            "title, category"@
        } else if file {
            "file"@
        } else if title {
            "title"@
        } else if category {
            "category"@
        } else {
            Seq::<char>::empty()
        }),
{
    reveal_strlit("file");
    reveal_strlit("title");
    reveal_strlit("category");
    reveal_strlit(", ");
    reveal_strlit("file, title, category");
    reveal_strlit("file, title");
    reveal_strlit("file, category");
    reveal_strlit("title, category");
    let f = seq!["file"@];
    let t = seq!["title"@];
    let c = seq!["category"@];
    let e = Seq::<Seq<char>>::empty();
    let parts = (if file { f } else { e }) + (if title { t } else { e }) + (if category { c } else { e });
    if parts.len() == 3 {
        let p2 = seq!["file"@, "title"@];
        assert(parts =~= seq!["file"@, "title"@, "category"@]);
        assert(parts.drop_last() =~= p2);
        assert(p2.drop_last() =~= seq!["file"@]);
        assert(joined(seq!["file"@]) == "file"@);
        assert(joined(p2) == joined(p2.drop_last()) + ", "@ + p2.last());
        assert(joined(p2) =~= "file, title"@);
        assert(joined(parts) == joined(parts.drop_last()) + ", "@ + parts.last());
        assert(joined(parts) =~= "file, title, category"@);
    } else if parts.len() == 2 {
        assert(parts.drop_last() =~= seq![parts[0]]);
        assert(joined(seq![parts[0]]) == parts[0]);
        if file && title {
            assert(parts =~= seq!["file"@, "title"@]);
            assert(joined(parts) =~= "file, title"@);
        } else if file && category {
            assert(parts =~= seq!["file"@, "category"@]);
            assert(joined(parts) =~= "file, category"@);
        } else {
            assert(parts =~= seq!["title"@, "category"@]);
            assert(joined(parts) =~= "title, category"@);
        }
    } else if parts.len() == 1 {
        if file {
            assert(parts =~= f);
        } else if title {
            assert(parts =~= t);
        } else {
            assert(parts =~= c);
        }
    } else {
        assert(parts =~= e);
    }
}

fn append(out: &mut String, s: &str)
    ensures
        final(out)@ == old(out)@ + s@,
{
    let cs = crate::text::chars_of(s);
    let ghost start = out@;
    let mut i: usize = 0;
    while i < cs.len()
        invariant
            i <= cs@.len(),
            cs@ == s@,
            out@ == start + cs@.subrange(0, i as int),
        decreases cs@.len() - i,
    {
        push_char(out, cs[i]);
        i = i + 1;
    }
    assert(cs@.subrange(0, cs@.len() as int) =~= cs@);
}

fn is_blank(v: &Option<String>) -> (r: bool)
    ensures
        r == (trimmed_opt(opt_view(*v)).len() == 0),
{
    match v {
        Some(s) => trim(s.as_str()).as_str().is_empty(),
        None => true,
    }
}

fn keep_non_blank(v: &Option<String>) -> (r: Option<String>)
    ensures
        opt_view(r) == non_blank(opt_view(*v)),
{
    match v {
        Some(s) => if trim(s.as_str()).as_str().is_empty() {
            None
        } else {
            Some(copy_str(s.as_str()))
        },
        None => None,
    }
}

/// Validate a submission.
pub fn validate_feedback(req: &FeedbackRequest) -> (r: Result<ValidFeedback, FeedbackError>)
    ensures
        req.verdict.is_none() ==> (r matches Err(e) && e.message@
            == "verdict is required (\"useful\" or \"false_positive\")"@),
        req.verdict.is_some() ==> ({
            let fp = trimmed_opt(opt_view(req.finding_fingerprint));
            let (mf, mt, mc) = (
                trimmed_opt(opt_view(req.file)).len() == 0,
                trimmed_opt(opt_view(req.title)).len() == 0,
                trimmed_opt(opt_view(req.category)).len() == 0,
            );
            if fp.len() > 0 {
                r matches Ok(v) && v.finding matches FindingRef::Fingerprint(f) && f@ == req.finding_fingerprint->0@
            } else if mf || mt || mc {
                r matches Err(e) && e.message@ == "finding_fingerprint is missing; provide it directly or supply "@
                    + missing_list(mf, mt, mc) + " (line optional)"@
            } else {
                r matches Ok(v) && v.finding matches FindingRef::Locating { file, line, title, category } && file@
                    == req.file->0@ && line == req.line && title@ == req.title->0@ && category@ == req.category->0@
            }
        }),
        r matches Ok(v) ==> v.verdict == req.verdict->0 && opt_view(v.comment) == non_blank(opt_view(req.comment))
            && opt_view(v.category) == non_blank(opt_view(req.category)),
{
    let verdict = match req.verdict {
        Some(v) => v,
        None => {
            return Err(FeedbackError {
                message: String::from_str("verdict is required (\"useful\" or \"false_positive\")"),
            });
        },
    };
    let finding = if !is_blank(&req.finding_fingerprint) {
        match &req.finding_fingerprint {
            Some(fp) => FindingRef::Fingerprint(copy_str(fp.as_str())),
            None => {
                return Err(FeedbackError { message: String::new() });
            },
        }
    } else {
        let mf = is_blank(&req.file);
        let mt = is_blank(&req.title);
        let mc = is_blank(&req.category);
        if mf || mt || mc {
            let mut msg = String::from_str("finding_fingerprint is missing; provide it directly or supply ");
            let ghost head = msg@;
            let mut first = true;
            let ghost mut parts: Seq<Seq<char>> = Seq::empty();
            proof {
                reveal_strlit("file");
                reveal_strlit("title");
                reveal_strlit("category");
                reveal_strlit(", ");
            }
            if mf {
                append(&mut msg, "file");
                first = false;
                proof {
                    parts = parts.push("file"@);
                    assert(parts.drop_last() =~= Seq::<Seq<char>>::empty());
                }
            }
            assert(msg@ == head + joined(parts));
            assert(first == (parts.len() == 0));
            if mt {
                if !first {
                    append(&mut msg, ", ");
                }
                append(&mut msg, "title");
                first = false;
                proof {
                    let before = parts;
                    parts = parts.push("title"@);
                    assert(parts.drop_last() =~= before);
                    if before.len() == 0 {
                        assert(parts =~= seq!["title"@]);
                    }
                }
            }
            assert(msg@ =~= head + joined(parts));
            assert(first == (parts.len() == 0));
            if mc {
                if !first {
                    append(&mut msg, ", ");
                }
                append(&mut msg, "category");
                proof {
                    let before = parts;
                    parts = parts.push("category"@);
                    assert(parts.drop_last() =~= before);
                    if before.len() == 0 {
                        assert(parts =~= seq!["category"@]);
                    }
                }
            }
            assert(msg@ =~= head + joined(parts));
            proof {
                let expect = (if mf {
                    seq!["file"@]
                } else {
                    Seq::<Seq<char>>::empty()
                }) + (if mt {
                    seq!["title"@]
                } else {
                    Seq::<Seq<char>>::empty()
                }) + (if mc {
                    seq!["category"@]
                } else {
                    Seq::<Seq<char>>::empty()
                });
                assert(parts =~= expect);
            }
            append(&mut msg, " (line optional)");
            return Err(FeedbackError { message: msg });
        }
        match (&req.file, &req.title, &req.category) {
            (Some(f), Some(t), Some(c)) => FindingRef::Locating {
                file: copy_str(f.as_str()),
                line: req.line,
                title: copy_str(t.as_str()),
                category: copy_str(c.as_str()),
            },
            _ => {
                return Err(FeedbackError { message: String::new() });
            },
        }
    };
    Ok(ValidFeedback {
        finding,
        verdict,
        comment: keep_non_blank(&req.comment),
        category: keep_non_blank(&req.category),
    })
}

} // verus!
