//! Batch import of actor and deception content: file format detection, row
//! validation and the YAML each row is written as.

use vstd::prelude::*;
use crate::text::{decimal, push_decimal, str_eq};
use vstd::string::StrSliceExecFns;

verus! {

/// The formats an import file can have.
#[derive(Debug, Clone, Copy, PartialEq, Eq, Structural)]
pub enum FileFormat {
    Yaml,
    Csv,
    Excel,
}

/// An import file whose extension is none of the supported ones.
#[derive(Debug)]
pub enum FormatError {
    /// The extension found (`None` where the path has none).
    Unsupported(Option<String>),
}

/// What `Path::extension` gives for a path: the part of the file name after its
/// last dot, if any.
pub uninterp spec fn path_extension(path: Seq<char>) -> Option<Seq<char>>;

/// `Path::extension` (through `OsStr::to_str`): the extension of the path's
/// file name, as `path_extension` names it.
#[verifier::external_body]
fn extension_of(path: &str) -> (r: Option<String>)
    ensures
        match r {
            Some(e) => path_extension(path@) == Some(e@),
            None => path_extension(path@) is None,
        },
{
    std::path::Path::new(path).extension().and_then(|e| e.to_str()).map(|e| e.to_owned())
}

/// The format an extension stands for: `yaml`/`yml`, `csv`, `xlsx`/`xls`.
pub open spec fn format_of(ext: Option<Seq<char>>) -> Option<FileFormat> {
    match ext {
        Some(e) => if e == "yaml"@ || e == "yml"@ {
            Some(FileFormat::Yaml)
        } else if e == "csv"@ {
            Some(FileFormat::Csv)
        } else if e == "xlsx"@ || e == "xls"@ {
            Some(FileFormat::Excel)
        } else {
            None
        },
        None => None,
    }
}

pub open spec fn unsupported_view(r: Result<FileFormat, FormatError>) -> Option<Option<Seq<char>>> {
    match r {
        Err(FormatError::Unsupported(Some(e))) => Some(Some(e@)),
        Err(FormatError::Unsupported(None)) => Some(None),
        Ok(_) => None,
    }
}

/// The format an extension stands for, or `Unsupported` with the extension.
pub fn format_for_extension(ext: Option<&str>) -> (r: Result<FileFormat, FormatError>)
    ensures
        match format_of(
            match ext {
                Some(e) => Some(e@),
                None => None,
            },
        ) {
            Some(f) => r matches Ok(g) && g == f,
            None => unsupported_view(r) == Some(
                match ext {
                    Some(e) => Some(e@),
                    None => None,
                },
            ),
        },
{
    match ext {
        Some(e) => {
            if str_eq(e, "yaml") || str_eq(e, "yml") {
                Ok(FileFormat::Yaml)
            } else if str_eq(e, "csv") {
                Ok(FileFormat::Csv)
            } else if str_eq(e, "xlsx") || str_eq(e, "xls") {
                Ok(FileFormat::Excel)
            } else {
                Err(FormatError::Unsupported(Some(e.to_owned())))
            }
        },
        None => Err(FormatError::Unsupported(None)),
    }
}

/// The format of an import file, by the extension of its path.
pub fn detect_format(path: &str) -> (r: Result<FileFormat, FormatError>)
    ensures
        match format_of(path_extension(path@)) {
            Some(f) => r matches Ok(g) && g == f,
            None => unsupported_view(r) == Some(path_extension(path@)),
        },
{
    let ext = extension_of(path);
    match ext {
        Some(e) => format_for_extension(Some(e.as_str())),
        None => format_for_extension(None),
    }
}

// ── actor rows ──────────────────────────────────────────────────────────────

/// An actor row of an import file.
#[derive(Debug)]
pub struct ActorRow {
    pub id: String,
    pub name: String,
    pub short_bio: String,
    pub speech_style: String,
    pub affinity: u8,
    pub avatar: String,
}

/// The problems of one actor row: a missing id, a missing name, an affinity
/// outside 1..=12, in that order.
pub open spec fn actor_row_errors(id: Seq<char>, name: Seq<char>, affinity: u8) -> Seq<Seq<char>> {
    let e1: Seq<Seq<char>> = if id.len() == 0 {
        seq!["演員 '"@ + name + "' 缺少 id"@]
    } else {
        Seq::empty()
    };
    let e2 = if name.len() == 0 {
        e1.push("id='"@ + id + "' 缺少 name"@)
    } else {
        e1
    };
    if !(1 <= affinity <= 12) {
        e2.push("演員 '"@ + id + "' affinity="@ + decimal(affinity as nat) + " 不在 [1,12]"@)
    } else {
        e2
    }
}

/// The problems of all actor rows, row by row.
pub open spec fn actor_rows_errors(rows: Seq<ActorRow>) -> Seq<Seq<char>>
    decreases rows.len(),
{
    if rows.len() == 0 {
        Seq::empty()
    } else {
        actor_rows_errors(rows.drop_last()) + actor_row_errors(
            rows.last().id@,
            rows.last().name@,
            rows.last().affinity,
        )
    }
}

fn push_message(errors: &mut Vec<String>, m: String)
    ensures
        crate::text::string_views(final(errors)@) == crate::text::string_views(old(errors)@).push(
            m@,
        ),
{
    proof {
        crate::text::lemma_string_views_push(errors@, m);
    }
    errors.push(m);
}

/// The problems of the actor rows (see `actor_row_errors`); none means the
/// rows can be imported.
pub fn validate_actor_rows(rows: &Vec<ActorRow>) -> (r: Vec<String>)
    ensures
        crate::text::string_views(r@) == actor_rows_errors(rows@),
{
    let mut errors: Vec<String> = Vec::new();
    let mut i: usize = 0;
    while i < rows.len()
        invariant
            i <= rows@.len(),
            crate::text::string_views(errors@) == actor_rows_errors(rows@.take(i as int)),
        decreases rows@.len() - i,
    {
        let row = &rows[i];
        let ghost before = crate::text::string_views(errors@);
        if row.id.unicode_len() == 0 {
            let mut m = "演員 '".to_owned();
            m.push_str(row.name.as_str());
            m.push_str("' 缺少 id");
            push_message(&mut errors, m);
        }
        if row.name.unicode_len() == 0 {
            let mut m = "id='".to_owned();
            m.push_str(row.id.as_str());
            m.push_str("' 缺少 name");
            push_message(&mut errors, m);
        }
        if row.affinity < 1 || row.affinity > 12 {
            let mut m = "演員 '".to_owned();
            m.push_str(row.id.as_str());
            m.push_str("' affinity=");
            push_decimal(&mut m, row.affinity as u64);
            m.push_str(" 不在 [1,12]");
            push_message(&mut errors, m);
        }
        proof {
            assert(rows@.take(i + 1).drop_last() =~= rows@.take(i as int));
            assert(rows@.take(i + 1).last() == *row);
            assert(crate::text::string_views(errors@) =~= before + actor_row_errors(
                row.id@,
                row.name@,
                row.affinity,
            ));
        }
        i = i + 1;
    }
    assert(rows@.take(rows@.len() as int) =~= rows@);
    errors
}

/// The YAML an actor row is written as.
pub open spec fn actor_yaml(r: ActorRow) -> Seq<char> {
    "id: \""@ + r.id@ + "\"\nname: \""@ + r.name@ + "\"\navatar: \""@ + r.avatar@
        + "\"\nshort_bio: \""@ + r.short_bio@ + "\"\npersonality_traits: []\nspeech_style: \""@
        + r.speech_style@ + "\"\naffinity: "@ + decimal(r.affinity as nat) + "\n"@
}

/// The YAML an actor row is written as.
pub fn render_actor_yaml(row: &ActorRow) -> (r: String)
    ensures
        r@ == actor_yaml(*row),
{
    let mut s = "id: \"".to_owned();
    s.push_str(row.id.as_str());
    s.push_str("\"\nname: \"");
    s.push_str(row.name.as_str());
    s.push_str("\"\navatar: \"");
    s.push_str(row.avatar.as_str());
    s.push_str("\"\nshort_bio: \"");
    s.push_str(row.short_bio.as_str());
    s.push_str("\"\npersonality_traits: []\nspeech_style: \"");
    s.push_str(row.speech_style.as_str());
    s.push_str("\"\naffinity: ");
    push_decimal(&mut s, row.affinity as u64);
    s.push_str("\n");
    s
}

/// The name of the file a row with this id is written to.
pub fn output_file_name(id: &str) -> (r: String)
    ensures
        r@ == id@ + ".yaml"@,
{
    let mut s = id.to_owned();
    s.push_str(".yaml");
    s
}

// ── deception rows ──────────────────────────────────────────────────────────

/// A deception row of an import file.
#[derive(Debug)]
pub struct DeceptionRow {
    pub id: String,
    pub name_zh: String,
    pub description: String,
    pub difficulty: String,
    pub affinity: u8,
    pub teaching_goal: String,
    pub example: String,
}

/// What `str::to_lowercase` gives: the Unicode lowercase of the text.
pub uninterp spec fn lowercase(s: Seq<char>) -> Seq<char>;

/// `str::to_lowercase`: the text in Unicode lowercase, as `lowercase` names it.
#[verifier::external_body]
fn to_lowercase(s: &str) -> (r: String)
    ensures
        r@ == lowercase(s@),
{
    s.to_lowercase()
}

/// The difficulty names an import accepts (after lowercasing).
pub open spec fn is_difficulty_name(s: Seq<char>) -> bool {
    s == "easy"@ || s == "medium"@ || s == "hard"@ || s == "易"@ || s == "中"@ || s == "難"@
}

/// Whether a lowercased difficulty is one an import accepts.
pub fn is_difficulty_word(lowered: &str) -> (r: bool)
    ensures
        r == is_difficulty_name(lowered@),
{
    str_eq(lowered, "easy") || str_eq(lowered, "medium") || str_eq(lowered, "hard") || str_eq(
        lowered,
        "易",
    ) || str_eq(lowered, "中") || str_eq(lowered, "難")
}

/// The problems of one deception row: a missing id, an affinity outside
/// 1..=12, a difficulty that is given and not a difficulty name, in that order.
pub open spec fn deception_row_errors(r: DeceptionRow) -> Seq<Seq<char>> {
    let e1: Seq<Seq<char>> = if r.id@.len() == 0 {
        seq!["騙術 '"@ + r.name_zh@ + "' 缺少 id"@]
    } else {
        Seq::empty()
    };
    let e2 = if !(1 <= r.affinity <= 12) {
        e1.push("騙術 '"@ + r.id@ + "' affinity="@ + decimal(r.affinity as nat) + " 不在 [1,12]"@)
    } else {
        e1
    };
    if r.difficulty@.len() != 0 && !is_difficulty_name(lowercase(r.difficulty@)) {
        e2.push(
            "騙術 '"@ + r.id@ + "' difficulty='"@ + r.difficulty@ + "' 不合法（易/中/難 或 easy/medium/hard）"@,
        )
    } else {
        e2
    }
}

pub open spec fn deception_rows_errors(rows: Seq<DeceptionRow>) -> Seq<Seq<char>>
    decreases rows.len(),
{
    if rows.len() == 0 {
        Seq::empty()
    } else {
        deception_rows_errors(rows.drop_last()) + deception_row_errors(rows.last())
    }
}

/// The problems of the deception rows (see `deception_row_errors`).
pub fn validate_deception_rows(rows: &Vec<DeceptionRow>) -> (r: Vec<String>)
    ensures
        crate::text::string_views(r@) == deception_rows_errors(rows@),
{
    let mut errors: Vec<String> = Vec::new();
    let mut i: usize = 0;
    while i < rows.len()
        invariant
            i <= rows@.len(),
            crate::text::string_views(errors@) == deception_rows_errors(rows@.take(i as int)),
        decreases rows@.len() - i,
    {
        let row = &rows[i];
        let ghost before = crate::text::string_views(errors@);
        if row.id.unicode_len() == 0 {
            let mut m = "騙術 '".to_owned();
            m.push_str(row.name_zh.as_str());
            m.push_str("' 缺少 id");
            push_message(&mut errors, m);
        }
        if row.affinity < 1 || row.affinity > 12 {
            let mut m = "騙術 '".to_owned();
            m.push_str(row.id.as_str());
            m.push_str("' affinity=");
            push_decimal(&mut m, row.affinity as u64);
            m.push_str(" 不在 [1,12]");
            push_message(&mut errors, m);
        }
        let lower = to_lowercase(row.difficulty.as_str());
        let known = is_difficulty_word(lower.as_str());
        if row.difficulty.unicode_len() != 0 && !known {
            let mut m = "騙術 '".to_owned();
            m.push_str(row.id.as_str());
            m.push_str("' difficulty='");
            m.push_str(row.difficulty.as_str());
            m.push_str("' 不合法（易/中/難 或 easy/medium/hard）");
            push_message(&mut errors, m);
        }
        proof {
            assert(rows@.take(i + 1).drop_last() =~= rows@.take(i as int));
            assert(rows@.take(i + 1).last() == *row);
            assert(crate::text::string_views(errors@) =~= before + deception_row_errors(*row));
        }
        i = i + 1;
    }
    assert(rows@.take(rows@.len() as int) =~= rows@);
    errors
}

/// The difficulty written to the content file: `easy` for 易/easy/Easy, `hard`
/// for 難/hard/Hard, `medium` for anything else.
pub open spec fn normalized_difficulty(s: Seq<char>) -> Seq<char> {
    if s == "易"@ || s == "easy"@ || s == "Easy"@ {
        "easy"@
    } else if s == "難"@ || s == "hard"@ || s == "Hard"@ {
        "hard"@
    } else {
        "medium"@
    }
}

/// The difficulty written to the content file (see `normalized_difficulty`).
pub fn normalize_difficulty(s: &str) -> (r: &'static str)
    ensures
        r@ == normalized_difficulty(s@),
{
    if str_eq(s, "易") || str_eq(s, "easy") || str_eq(s, "Easy") {
        "easy"
    } else if str_eq(s, "難") || str_eq(s, "hard") || str_eq(s, "Hard") {
        "hard"
    } else {
        "medium"
    }
}

/// The YAML a deception row is written as.
pub open spec fn deception_yaml(r: DeceptionRow) -> Seq<char> {
    "id: \""@ + r.id@ + "\"\nname_zh: \""@ + r.name_zh@ + "\"\ndescription: \""@ + r.description@
        + "\"\nexample: \""@ + r.example@ + "\"\ndifficulty: "@ + normalized_difficulty(
        r.difficulty@,
    ) + "\nteaching_goal: \""@ + r.teaching_goal@ + "\"\naffinity: "@ + decimal(r.affinity as nat)
        + "\n"@
}

/// The YAML a deception row is written as.
pub fn render_deception_yaml(row: &DeceptionRow) -> (r: String)
    ensures
        r@ == deception_yaml(*row),
{
    let mut s = "id: \"".to_owned();
    s.push_str(row.id.as_str());
    s.push_str("\"\nname_zh: \"");
    s.push_str(row.name_zh.as_str());
    s.push_str("\"\ndescription: \"");
    s.push_str(row.description.as_str());
    s.push_str("\"\nexample: \"");
    s.push_str(row.example.as_str());
    s.push_str("\"\ndifficulty: ");
    s.push_str(normalize_difficulty(row.difficulty.as_str()));
    s.push_str("\nteaching_goal: \"");
    s.push_str(row.teaching_goal.as_str());
    s.push_str("\"\naffinity: ");
    push_decimal(&mut s, row.affinity as u64);
    s.push_str("\n");
    s
}

// ── laws ────────────────────────────────────────────────────────────────────

/// A normalised difficulty is one of `easy`, `medium`, `hard`, and normalising
/// it again changes nothing.
pub proof fn lemma_normalized_difficulty(s: Seq<char>)
    ensures
        normalized_difficulty(s) == "easy"@ || normalized_difficulty(s) == "medium"@
            || normalized_difficulty(s) == "hard"@,
        normalized_difficulty(normalized_difficulty(s)) == normalized_difficulty(s),
{
    reveal_strlit("easy");
    reveal_strlit("Easy");
    reveal_strlit("易");
    reveal_strlit("hard");
    reveal_strlit("Hard");
    reveal_strlit("難");
    reveal_strlit("medium");
    let m = "medium"@;
    assert(m != "易"@ && m != "easy"@ && m != "Easy"@ && m != "難"@ && m != "hard"@ && m
        != "Hard"@) by {
        assert(m.len() != "易"@.len() && m.len() != "難"@.len());
        assert(m.len() != "easy"@.len() && m.len() != "Easy"@.len());
        assert(m.len() != "hard"@.len() && m.len() != "Hard"@.len());
    }
    let h = "hard"@;
    assert(h != "易"@ && h != "easy"@ && h != "Easy"@) by {
        assert(h.len() != "易"@.len());
        assert(h[0] != "easy"@[0] && h[0] != "Easy"@[0]);
    }
}

/// An actor row that imports: an id, a name, and an affinity in 1..=12.
pub open spec fn actor_row_ok(r: ActorRow) -> bool {
    r.id@.len() > 0 && r.name@.len() > 0 && 1 <= r.affinity <= 12
}

/// A deception row that imports: an id, an affinity in 1..=12, and no
/// difficulty or one whose lowercase is a difficulty name.
pub open spec fn deception_row_ok(r: DeceptionRow) -> bool {
    &&& r.id@.len() > 0
    &&& 1 <= r.affinity <= 12
    &&& (r.difficulty@.len() == 0 || is_difficulty_name(lowercase(r.difficulty@)))
}

/// The actor rows raise no problem exactly when every row imports.
pub proof fn lemma_actor_rows_clean(rows: Seq<ActorRow>)
    ensures
        actor_rows_errors(rows).len() == 0 <==> forall|i: int| 0 <= i < rows.len() ==> actor_row_ok(
            #[trigger] rows[i],
        ),
    decreases rows.len(),
{
    if rows.len() > 0 {
        let rest = rows.drop_last();
        lemma_actor_rows_clean(rest);
        let last = rows.last();
        assert(actor_row_errors(last.id@, last.name@, last.affinity).len() == 0 <==> actor_row_ok(
            last,
        ));
        if forall|i: int| 0 <= i < rows.len() ==> actor_row_ok(#[trigger] rows[i]) {
            assert forall|i: int| 0 <= i < rest.len() implies actor_row_ok(#[trigger] rest[i]) by {
                assert(rest[i] == rows[i]);
            }
            assert(actor_row_ok(rows[rows.len() - 1]));
        }
        if actor_rows_errors(rows).len() == 0 {
            assert forall|i: int| 0 <= i < rows.len() implies actor_row_ok(#[trigger] rows[i]) by {
                if i < rows.len() - 1 {
                    assert(rest[i] == rows[i]);
                }
            }
        }
    }
}

/// The deception rows raise no problem exactly when every row imports.
pub proof fn lemma_deception_rows_clean(rows: Seq<DeceptionRow>)
    ensures
        deception_rows_errors(rows).len() == 0 <==> forall|i: int|
            0 <= i < rows.len() ==> deception_row_ok(#[trigger] rows[i]),
    decreases rows.len(),
{
    if rows.len() > 0 {
        let rest = rows.drop_last();
        lemma_deception_rows_clean(rest);
        let last = rows.last();
        assert(deception_row_errors(last).len() == 0 <==> deception_row_ok(last));
        if forall|i: int| 0 <= i < rows.len() ==> deception_row_ok(#[trigger] rows[i]) {
            assert forall|i: int| 0 <= i < rest.len() implies deception_row_ok(#[trigger] rest[i]) by {
                assert(rest[i] == rows[i]);
            }
            assert(deception_row_ok(rows[rows.len() - 1]));
        }
        if deception_rows_errors(rows).len() == 0 {
            assert forall|i: int| 0 <= i < rows.len() implies deception_row_ok(#[trigger] rows[i]) by {
                if i < rows.len() - 1 {
                    assert(rest[i] == rows[i]);
                }
            }
        }
    }
}

} // verus!
