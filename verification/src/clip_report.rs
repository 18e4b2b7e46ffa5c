//! What the user is told about a CLIP indexing run of a volume: the count it
//! targets, its progress panel while it runs, and the panel and toast once it
//! ended.
use vstd::prelude::*;
use crate::text::{chars_of, string_of, push_str, push_all, fmt_u64, fmt_i64, dec, dec_int};
use crate::models::ClipGenerationProgress;
use crate::scan::ClipDialogStats;

verus! {

/// The index counts of a volume when an indexing run ended.
#[derive(Clone, Copy, Debug, PartialEq, Eq, Structural)]
pub struct ClipProgressStats {
    pub total: i64,
    pub con_archivo: i64,
    pub indexadas: i64,
    pub pendientes: i64,
}

/// `a - b` on `i64`, held at `i64::MIN` below it (`i64::saturating_sub`).
pub open spec fn sat_sub_i64(a: int, b: int) -> int {
    if a - b < i64::MIN { i64::MIN as int } else { a - b }
}

fn saturating_sub_i64(a: i64, b: i64) -> (r: i64)
    requires
        b >= 0,
    ensures
        r == sat_sub_i64(a as int, b as int),
{
    let d = (a as i128) - (b as i128);
    if d < (i64::MIN as i128) { i64::MIN } else { d as i64 }
}

/// The run asked for by a response of the indexing dialog: none for
/// `cancel`; every candidate cover for `all`; else only the missing ones.
/// Returns whether only the missing covers are indexed, and how many covers
/// the run targets.
pub fn clip_run_target(response: &str, stats: ClipDialogStats) -> (r: Option<(bool, i64)>)
    ensures
        r == if response@ == "cancel"@ {
            None
        } else if response@ == "all"@ {
            Some((false, stats.total_all_candidates))
        } else {
            Some((true, stats.total_missing_candidates))
        },
{
    let r = response.to_owned();
    if r == "cancel".to_owned() {
        None
    } else if r == "all".to_owned() {
        Some((false, stats.total_all_candidates))
    } else {
        Some((true, stats.total_missing_candidates))
    }
}

/// The progress panel as a run starts: its line, its bar text, and whether
/// the bar starts full (nothing to do).
pub fn clip_start_panel(target: i64) -> (r: (String, String, bool))
    ensures
        r.0@ == "0/"@ + dec_int(target as int) + " procesados, "@ + dec_int(target as int) + " restantes"@,
        r.1@ == "0/"@ + dec_int(target as int),
        r.2 == (target <= 0),
{
    let t = fmt_i64(target);
    let mut a = chars_of("0/");
    push_all(&mut a, t.as_slice());
    push_str(&mut a, " procesados, ");
    push_all(&mut a, t.as_slice());
    push_str(&mut a, " restantes");
    let mut b = chars_of("0/");
    push_all(&mut b, t.as_slice());
    (string_of(a.as_slice()), string_of(b.as_slice()), target <= 0)
}

/// The covers still to process in a progress report.
pub open spec fn remaining_of(p: ClipGenerationProgress) -> nat {
    if p.processed <= p.total { (p.total - p.processed) as nat } else { 0 }
}

/// The progress panel for a report: its line, its bar text, and the bar's
/// fill in millionths (full when there is nothing to do).
pub fn clip_progress_panel(p: ClipGenerationProgress) -> (r: (String, String, i64))
    ensures
        r.0@ == dec(p.processed as nat) + seq!['/'] + dec(p.total as nat) + " procesados, "@ + dec(
            remaining_of(p),
        ) + " restantes, "@ + dec(p.generated as nat) + " generados, "@ + dec(p.errors as nat)
            + " errores"@,
        r.1@ == dec(p.processed as nat) + seq!['/'] + dec(p.total as nat),
        r.2 == if p.total > 0 { (1_000_000 * p.processed as int) / (p.total as int) } else { 1_000_000 },
{
    let remaining: u32 = p.total.saturating_sub(p.processed);
    let pr = fmt_u64(p.processed as u64);
    let tt = fmt_u64(p.total as u64);
    let mut a = pr.clone();
    a.push('/');
    push_all(&mut a, tt.as_slice());
    push_str(&mut a, " procesados, ");
    let rm = fmt_u64(remaining as u64);
    push_all(&mut a, rm.as_slice());
    push_str(&mut a, " restantes, ");
    let g = fmt_u64(p.generated as u64);
    push_all(&mut a, g.as_slice());
    push_str(&mut a, " generados, ");
    let e = fmt_u64(p.errors as u64);
    push_all(&mut a, e.as_slice());
    push_str(&mut a, " errores");
    let mut b = pr;
    b.push('/');
    push_all(&mut b, tt.as_slice());
    let frac: i64 = if p.total > 0 {
        ((1_000_000u64 * p.processed as u64) / (p.total as u64)) as i64
    } else {
        1_000_000
    };
    (string_of(a.as_slice()), string_of(b.as_slice()), frac)
}

/// The panel once a run ended: title, line, bar text, and whether the bar is full.
pub open spec fn finished_panel(
    result: Result<(u32, Seq<Seq<char>>), Seq<char>>,
    stats: ClipProgressStats,
) -> (Seq<char>, Seq<char>, Seq<char>, bool) {
    match result {
        Ok((g, errs)) => if g == 0 && stats.con_archivo == 0 {
            (
                "Sin portadas descargadas"@,
                "Hay "@ + dec_int(stats.total as int) + " issues en BD, pero ninguna portada local para indexar."@,
                "0/0"@,
                false,
            )
        } else {
            (
                if errs.len() == 0 {
                    "Embeddings CLIP actualizados"@
                } else {
                    "Embeddings CLIP finalizados con errores"@
                },
                dec(g as nat) + " generados, "@ + dec(errs.len()) + " errores, "@ + dec_int(
                    sat_sub_i64(stats.pendientes as int, g as int),
                ) + " pendientes en el volumen"@,
                dec(g as nat),
                true,
            )
        },
        Err(e) => ("Error generando embeddings CLIP"@, e, "Error"@, false),
    }
}

/// The views of a list of messages.
pub open spec fn message_views(v: Seq<String>) -> Seq<Seq<char>> {
    Seq::new(v.len(), |i: int| v[i]@)
}

/// The result of a run as its views.
pub open spec fn result_view(result: Result<(u32, Vec<String>), String>) -> Result<(u32, Seq<Seq<char>>), Seq<char>> {
    match result {
        Ok((g, errs)) => Ok((g, message_views(errs@))),
        Err(e) => Err(e@),
    }
}

/// The panel of the volume page once an indexing run ended.
pub fn clip_finished_panel(result: &Result<(u32, Vec<String>), String>, stats: ClipProgressStats) -> (r: (
    String,
    String,
    String,
    bool,
))
    ensures
        (r.0@, r.1@, r.2@, r.3) == finished_panel(result_view(*result), stats),
{
    match result {
        Ok((g, errs)) => {
            if *g == 0 && stats.con_archivo == 0 {
                let mut b = chars_of("Hay ");
                let t = fmt_i64(stats.total);
                push_all(&mut b, t.as_slice());
                push_str(&mut b, " issues en BD, pero ninguna portada local para indexar.");
                (
                    "Sin portadas descargadas".to_owned(),
                    string_of(b.as_slice()),
                    "0/0".to_owned(),
                    false,
                )
            } else {
                let title = if errs.len() == 0 {
                    "Embeddings CLIP actualizados".to_owned()
                } else {
                    "Embeddings CLIP finalizados con errores".to_owned()
                };
                let gd = fmt_u64(*g as u64);
                let mut b = gd.clone();
                push_str(&mut b, " generados, ");
                let ed = fmt_u64(errs.len() as u64);
                push_all(&mut b, ed.as_slice());
                push_str(&mut b, " errores, ");
                let pd = fmt_i64(saturating_sub_i64(stats.pendientes, *g as i64));
                push_all(&mut b, pd.as_slice());
                push_str(&mut b, " pendientes en el volumen");
                (title, string_of(b.as_slice()), string_of(gd.as_slice()), true)
            }
        },
        Err(e) => ("Error generando embeddings CLIP".to_owned(), e.clone(), "Error".to_owned(), false),
    }
}

/// The toast shown once a run ended.
pub open spec fn toast_of(result: Result<(u32, Seq<Seq<char>>), Seq<char>>, stats: ClipProgressStats) -> Seq<char> {
    match result {
        Ok((n, errs)) => if n == 0 && stats.con_archivo == 0 {
            "Sin portadas descargadas ("@ + dec_int(stats.total as int) + " issues en BD)."@
        } else if n == 0 {
            dec_int(stats.indexadas as int) + " portadas ya indexadas de "@ + dec_int(stats.con_archivo as int)
                + " con archivo local"@
        } else if errs.len() == 0 {
            "CLIP: "@ + dec(n as nat) + " portadas indexadas ("@ + dec_int(stats.total as int) + " total, "@
                + dec_int(sat_sub_i64(stats.pendientes as int, n as int)) + " pendientes)"@
        } else {
            "CLIP: "@ + dec(n as nat) + " indexadas, "@ + dec(errs.len()) + " errores (ver log)"@
        },
        Err(e) => "CLIP error: "@ + e,
    }
}

/// The toast shown once an indexing run ended.
pub fn clip_toast_message(result: &Result<(u32, Vec<String>), String>, stats: ClipProgressStats) -> (r: String)
    ensures
        r@ == toast_of(result_view(*result), stats),
{
    match result {
        Ok((n, errs)) => {
            if *n == 0 && stats.con_archivo == 0 {
                let mut v = chars_of("Sin portadas descargadas (");
                let t = fmt_i64(stats.total);
                push_all(&mut v, t.as_slice());
                push_str(&mut v, " issues en BD).");
                string_of(v.as_slice())
            } else if *n == 0 {
                let mut v = fmt_i64(stats.indexadas);
                push_str(&mut v, " portadas ya indexadas de ");
                let c = fmt_i64(stats.con_archivo);
                push_all(&mut v, c.as_slice());
                push_str(&mut v, " con archivo local");
                string_of(v.as_slice())
            } else if errs.len() == 0 {
                let mut v = chars_of("CLIP: ");
                let nd = fmt_u64(*n as u64);
                push_all(&mut v, nd.as_slice());
                push_str(&mut v, " portadas indexadas (");
                let t = fmt_i64(stats.total);
                push_all(&mut v, t.as_slice());
                push_str(&mut v, " total, ");
                let p = fmt_i64(saturating_sub_i64(stats.pendientes, *n as i64));
                push_all(&mut v, p.as_slice());
                push_str(&mut v, " pendientes)");
                string_of(v.as_slice())
            } else {
                let mut v = chars_of("CLIP: ");
                let nd = fmt_u64(*n as u64);
                push_all(&mut v, nd.as_slice());
                push_str(&mut v, " indexadas, ");
                let e = fmt_u64(errs.len() as u64);
                push_all(&mut v, e.as_slice());
                push_str(&mut v, " errores (ver log)");
                string_of(v.as_slice())
            }
        },
        Err(e) => {
            let mut v = chars_of("CLIP error: ");
            push_str(&mut v, e.as_str());
            string_of(v.as_slice())
        },
    }
}

} // verus!
