//! The object-listing stage: line-oriented parsing of the plaintext catalog
//! of observable objects, and the decision on a fetched response.

use vstd::prelude::*;
use crate::split::{line_split, split_lines, split_tokens, str_views, tokens};

verus! {

/// One observable celestial object from the catalog listing.
#[derive(Debug, Clone, PartialEq, Eq)]
pub struct HorizonObject {
    pub name: String,
    pub class: String,
    pub ephemeris_id: String,
}

pub ghost struct HorizonView {
    pub name: Seq<char>,
    pub class: Seq<char>,
    pub ephemeris_id: Seq<char>,
}

impl View for HorizonObject {
    type V = HorizonView;

    open spec fn view(&self) -> HorizonView {
        HorizonView { name: self.name@, class: self.class@, ephemeris_id: self.ephemeris_id@ }
    }
}

pub open spec fn obj_views(v: Seq<HorizonObject>) -> Seq<HorizonView> {
    v.map_values(|o: HorizonObject| o@)
}

/// The record a line denotes: its first three whitespace-separated tokens as
/// id, name and class, any further tokens ignored; no record under three.
pub open spec fn line_record(l: Seq<char>) -> Option<HorizonView> {
    if tokens(l).len() >= 3 {
        Some(
            HorizonView {
                ephemeris_id: tokens(l)[0],
                name: tokens(l)[1],
                class: tokens(l)[2],
            },
        )
    } else {
        None
    }
}

/// The records of a sequence of lines, in order, lines without a record
/// dropped.
pub open spec fn listing_records(ls: Seq<Seq<char>>) -> Seq<HorizonView>
    decreases ls.len(),
{
    if ls.len() == 0 {
        Seq::empty()
    } else {
        listing_records(ls.drop_last()) + (match line_record(ls.last()) {
            Some(o) => seq![o],
            None => Seq::empty(),
        })
    }
}

/// The records of a whole listing text.
pub open spec fn parse_listing(s: Seq<char>) -> Seq<HorizonView> {
    listing_records(line_split(s))
}

/// Parses one listing line; a record comes back exactly when the line has at
/// least three whitespace-separated tokens.
pub fn parse_object_line(line: &str) -> (r: Option<HorizonObject>)
    ensures
        match r {
            Some(o) => line_record(line@) == Some(o@),
            None => line_record(line@) is None,
        },
        r is Some <==> tokens(line@).len() >= 3,
{
    let parts = split_tokens(line);
    if parts.len() >= 3 {
        let o = HorizonObject {
            ephemeris_id: parts[0].clone(),
            name: parts[1].clone(),
            class: parts[2].clone(),
        };
        proof {
            assert(str_views(parts@)[0] == parts@[0]@);
            assert(str_views(parts@)[1] == parts@[1]@);
            assert(str_views(parts@)[2] == parts@[2]@);
        }
        Some(o)
    } else {
        None
    }
}

/// Parses a listing text line by line, keeping each line's record and
/// dropping lines that have none.
pub fn parse_horizon_objects(data: &str) -> (r: Vec<HorizonObject>)
    ensures
        obj_views(r@) == parse_listing(data@),
{
    let lines = split_lines(data);
    let mut objects: Vec<HorizonObject> = Vec::new();
    let mut idx: usize = 0;
    proof {
        assert(line_split(data@).take(0) =~= Seq::<Seq<char>>::empty());
        assert(obj_views(objects@) =~= Seq::<HorizonView>::empty());
    }
    while idx < lines.len()
        invariant
            0 <= idx <= lines@.len(),
            str_views(lines@) == line_split(data@),
            lines@.len() == line_split(data@).len(),
            obj_views(objects@) == listing_records(line_split(data@).take(idx as int)),
        decreases lines@.len() - idx,
    {
        let ghost ls = line_split(data@);
        let ghost before = objects@;
        match parse_object_line(lines[idx].as_str()) {
            Some(o) => {
                objects.push(o);
            },
            None => {},
        }
        proof {
            assert(ls.take(idx + 1).drop_last() =~= ls.take(idx as int));
            assert(ls.take(idx + 1).last() == ls[idx as int]);
            assert(ls[idx as int] == str_views(lines@)[idx as int]);
            assert(ls[idx as int] == lines@[idx as int]@);
            match line_record(ls[idx as int]) {
                Some(ov) => {
                    assert(obj_views(objects@) =~= obj_views(before) + seq![ov]);
                },
                None => {
                    assert(obj_views(objects@) =~= obj_views(before));
                    assert(obj_views(objects@) =~= obj_views(before) + Seq::<HorizonView>::empty());
                },
            }
        }
        idx += 1;
    }
    proof {
        assert(line_split(data@).take(lines@.len() as int) =~= line_split(data@));
    }
    objects
}

/// The failure of a fetch: a response status that is no success.
#[derive(Debug, Clone, Copy, PartialEq, Eq, Structural)]
pub struct NetworkError {
    pub status: u16,
}

/// Decides on a fetched response: a non-success status fails with a
/// `NetworkError` carrying the status and yields no records; a success hands
/// the body to the line parser, malformed lines silently dropped.
pub fn process_horizon_response(success: bool, status: u16, body: &str) -> (r: Result<
    Vec<HorizonObject>,
    NetworkError,
>)
    ensures
        match r {
            Ok(objects) => success && obj_views(objects@) == parse_listing(body@),
            Err(e) => !success && e == (NetworkError { status }),
        },
{
    if success {
        Ok(parse_horizon_objects(body))
    } else {
        Err(NetworkError { status })
    }
}

/// An empty response body yields an empty listing, not an error.
pub proof fn lemma_empty_body_empty_listing()
    ensures
        parse_listing(Seq::<char>::empty()) == Seq::<HorizonView>::empty(),
{
    assert(line_split(Seq::<char>::empty()) == Seq::<Seq<char>>::empty());
}

/// The header row of the persisted object listing, in struct field order.
pub open spec fn horizon_header() -> Seq<char> {
    "name,class,ephemeris_id\n"@
}

/// One persisted row of an object.
pub open spec fn horizon_row(o: HorizonView) -> Seq<char> {
    o.name + ","@ + o.class + ","@ + o.ephemeris_id + "\n"@
}

/// The persisted rows of a sequence of objects, in input order.
pub open spec fn horizon_rows(v: Seq<HorizonView>) -> Seq<char>
    decreases v.len(),
{
    if v.len() == 0 {
        Seq::empty()
    } else {
        horizon_rows(v.drop_last()) + horizon_row(v.last())
    }
}

/// Serializes objects for durable storage: one header row naming the fields,
/// then one row per object in input order.
pub fn horizon_csv_text(objects: &Vec<HorizonObject>) -> (r: String)
    ensures
        r@ == horizon_header() + horizon_rows(obj_views(objects@)),
{
    let mut s = String::from_str("name,class,ephemeris_id\n");
    let mut i: usize = 0;
    proof {
        assert(obj_views(objects@).take(0) =~= Seq::<HorizonView>::empty());
        assert(s@ =~= horizon_header() + horizon_rows(obj_views(objects@).take(0)));
    }
    while i < objects.len()
        invariant
            0 <= i <= objects@.len(),
            s@ == horizon_header() + horizon_rows(obj_views(objects@).take(i as int)),
        decreases objects@.len() - i,
    {
        s.append(objects[i].name.as_str());
        s.append(",");
        s.append(objects[i].class.as_str());
        s.append(",");
        s.append(objects[i].ephemeris_id.as_str());
        s.append("\n");
        proof {
            let ov = obj_views(objects@);
            assert(ov.take(i + 1).drop_last() =~= ov.take(i as int));
            assert(ov.take(i + 1).last() == ov[i as int]);
            assert(ov[i as int] == objects@[i as int]@);
            assert(s@ =~= horizon_header() + horizon_rows(ov.take(i + 1)));
        }
        i += 1;
    }
    proof {
        assert(obj_views(objects@).take(objects@.len() as int) =~= obj_views(objects@));
    }
    s
}

} // verus!

