//! Importing a whole publisher from ComicVine: what is kept of its details,
//! the stub of each of its volumes, and the report of the import.
use vstd::prelude::*;
use crate::text::{chars_of, string_of, push_all, push_str, fmt_i64, dec_int};
use crate::models::ImportReport;

verus! {

/// Why an import stopped.
#[derive(Clone, Debug, PartialEq, Eq, Structural)]
pub enum ImportError {
    /// ComicVine gave nothing for the publisher.
    NoData(i64),
    /// ComicVine gave an empty name for the publisher.
    EmptyName(i64),
}

impl ImportError {
    /// The message shown to the user.
    pub fn message(&self) -> (r: String)
        ensures
            r@ == match *self {
                ImportError::NoData(id) => "Comic Vine no devolvió datos para publisher id="@ + dec_int(id as int)
                    + ". Revisa los logs de INFO/ERROR para ver la URL y la respuesta exacta."@,
                ImportError::EmptyName(id) => "La API devolvió un nombre de editorial vacío para id "@ + dec_int(
                    id as int,
                ),
            },
    {
        match self {
            ImportError::NoData(id) => {
                let mut v = chars_of("Comic Vine no devolvió datos para publisher id=");
                let d = fmt_i64(*id);
                push_all(&mut v, d.as_slice());
                push_str(&mut v, ". Revisa los logs de INFO/ERROR para ver la URL y la respuesta exacta.");
                string_of(v.as_slice())
            },
            ImportError::EmptyName(id) => {
                let mut v = chars_of("La API devolvió un nombre de editorial vacío para id ");
                let d = fmt_i64(*id);
                push_all(&mut v, d.as_slice());
                string_of(v.as_slice())
            },
        }
    }
}

/// What is kept of a publisher's details.
#[derive(Clone, Debug)]
pub struct PublisherFields {
    pub name: String,
    pub description: Option<String>,
    pub image_url: Option<String>,
}

/// An optional text, kept only when not empty.
pub open spec fn non_empty(v: Option<String>) -> Option<Seq<char>> {
    match v {
        Some(s) => if s@.len() > 0 {
            Some(s@)
        } else {
            None
        },
        None => None,
    }
}

fn keep_non_empty(v: Option<String>) -> (r: Option<String>)
    ensures
        match r {
            Some(s) => non_empty(v) == Some(s@),
            None => non_empty(v) is None,
        },
{
    match v {
        Some(s) => {
            if s.as_str().is_empty() {
                None
            } else {
                Some(s)
            }
        },
        None => None,
    }
}

/// The publisher's fields from its details: the name (`Editorial
/// desconocida` when missing; an empty one stops the import), and the
/// description and logo when present and not empty.
pub fn publisher_fields(
    cv_publisher_id: i64,
    name: Option<String>,
    description: Option<String>,
    image_url: Option<String>,
) -> (r: Result<PublisherFields, ImportError>)
    ensures
        match name {
            Some(n) => n@.len() == 0 <==> r == Err::<PublisherFields, ImportError>(ImportError::EmptyName(cv_publisher_id)),
            None => r is Ok,
        },
        r matches Ok(f) ==> {
            &&& f.name@ == match name { Some(n) => n@, None => "Editorial desconocida"@ }
            &&& match f.description { Some(d) => non_empty(description) == Some(d@), None => non_empty(description) is None }
            &&& match f.image_url { Some(d) => non_empty(image_url) == Some(d@), None => non_empty(image_url) is None }
        },
{
    let n = match name {
        Some(n) => n,
        None => "Editorial desconocida".to_owned(),
    };
    proof {
        reveal_strlit("Editorial desconocida");
    }
    if n.as_str().is_empty() {
        return Err(ImportError::EmptyName(cv_publisher_id));
    }
    Ok(PublisherFields { name: n, description: keep_non_empty(description), image_url: keep_non_empty(image_url) })
}

/// The stub of a publisher's volume: its id, name (`Sin nombre` when
/// missing) and API URL (empty when missing); none without an id.
pub fn volume_stub(id: Option<i64>, name: Option<String>, api_detail_url: Option<String>) -> (r: Option<(i64, String, String)>)
    ensures
        id is None ==> r is None,
        id matches Some(i) ==> r matches Some(t) && {
            &&& t.0 == i
            &&& t.1@ == match name { Some(n) => n@, None => "Sin nombre"@ }
            &&& t.2@ == match api_detail_url { Some(u) => u@, None => ""@ }
        },
{
    let i = match id {
        Some(i) => i,
        None => return None,
    };
    let n = match name {
        Some(n) => n,
        None => "Sin nombre".to_owned(),
    };
    let u = match api_detail_url {
        Some(u) => u,
        None => "".to_owned(),
    };
    Some((i, n, u))
}

/// The report of an import that inserted `inserted` of `total` volumes.
pub fn import_report(publisher_name: String, publisher_local_id: i64, total: usize, inserted: usize) -> (r: ImportReport)
    requires
        inserted <= total,
    ensures
        r.publisher_name@ == publisher_name@,
        r.publisher_local_id == publisher_local_id,
        r.volumes_inserted == inserted,
        r.volumes_skipped == total - inserted,
        r.volumes_inserted + r.volumes_skipped == total,
{
    ImportReport {
        publisher_name,
        publisher_local_id,
        volumes_inserted: inserted,
        volumes_skipped: total - inserted,
    }
}

} // verus!
