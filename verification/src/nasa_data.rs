//! The asteroid-survey response shape and its schema validation.

use vstd::prelude::*;
use crate::digits::{dec_digits, u64_to_string};
use crate::validation::{err_views, ErrView, Validatable, ValidationError};

verus! {

/// Provenance metadata accompanying a survey response.
#[derive(Debug, Clone, PartialEq, Eq)]
pub struct Signature {
    pub version: String,
    pub source: String,
}

/// The close-approach figures at minimal delta-v.
#[derive(Debug, Clone, PartialEq, Eq)]
pub struct MinDv {
    pub dv: String,
    pub dur: String,
}

/// The close-approach figures at minimal duration.
#[derive(Debug, Clone, PartialEq, Eq)]
pub struct MinDur {
    pub dv: String,
    pub dur: String,
}

/// One asteroid-survey record; numeric-looking fields are carried as free
/// text except n_via_traj.
#[derive(Debug, Clone, PartialEq, Eq)]
pub struct AsteroidData {
    pub des: String,
    pub fullname: String,
    pub orbit_id: String,
    pub h: String,
    pub min_size: String,
    pub max_size: String,
    pub size: Option<String>,
    pub size_sigma: Option<String>,
    pub occ: String,
    pub min_dv: MinDv,
    pub min_dur: MinDur,
    pub n_via_traj: u32,
    pub obs_start: String,
    pub obs_end: String,
    pub obs_mag: String,
    pub obs_flag: String,
    pub radar_obs_a: Option<String>,
    pub radar_snr_a: Option<String>,
    pub radar_obs_g: Option<String>,
    pub radar_snr_g: Option<String>,
}

/// A survey response: its signature, a declared count (not cross-checked
/// against the data, by design), and the ordered records.
#[allow(non_camel_case_types)]
#[derive(Debug, Clone, PartialEq, Eq)]
pub struct NHAT_NASAResponse {
    pub signature: Signature,
    pub count: u32,
    pub data: Vec<AsteroidData>,
}

/// The signature violations: version first, then source, one error for each
/// empty field.
pub open spec fn sig_errors(s: Signature) -> Seq<ErrView> {
    (if s.version@.len() == 0 {
        seq![
            ErrView { field: "signature.version"@, message: "Version is required"@ },
        ]
    } else {
        Seq::empty()
    }) + (if s.source@.len() == 0 {
        seq![
            ErrView { field: "signature.source"@, message: "Source is required"@ },
        ]
    } else {
        Seq::empty()
    })
}

/// The violations of one record at index i: des, then fullname, then the
/// observation window pair, which yields exactly one combined error when
/// either end is empty.
pub open spec fn asteroid_errors(a: AsteroidData, i: nat) -> Seq<ErrView> {
    (if a.des@.len() == 0 {
        seq![
            ErrView {
                field: "data["@ + dec_digits(i) + "].des"@,
                message: "Description (des) is required"@,
            },
        ]
    } else {
        Seq::empty()
    }) + (if a.fullname@.len() == 0 {
        seq![
            ErrView {
                field: "data["@ + dec_digits(i) + "].fullname"@,
                message: "Full name is required"@,
            },
        ]
    } else {
        Seq::empty()
    }) + (if a.obs_start@.len() == 0 || a.obs_end@.len() == 0 {
        seq![
            ErrView {
                field: "data["@ + dec_digits(i) + "].obs_start/obs_end"@,
                message: "Observation start or end date is required"@,
            },
        ]
    } else {
        Seq::empty()
    })
}

/// The violations of all records, in ascending index order.
pub open spec fn data_errors(d: Seq<AsteroidData>) -> Seq<ErrView>
    decreases d.len(),
{
    if d.len() == 0 {
        Seq::empty()
    } else {
        data_errors(d.drop_last()) + asteroid_errors(d.last(), (d.len() - 1) as nat)
    }
}

/// Builds the field path of record i: the prefix "data[", the decimal index,
/// and the given rest of the path.
fn data_path(i: usize, rest: &str) -> (r: String)
    ensures
        r@ == "data["@ + dec_digits(i as nat) + rest@,
{
    let mut s = String::from_str("data[");
    let num = u64_to_string(i as u64);
    s.append(num.as_str());
    s.append(rest);
    s
}

impl NHAT_NASAResponse {
    /// Checks the signature block; both fields are checked independently.
    pub fn validate_signature(&self) -> (r: Vec<ValidationError>)
        ensures
            err_views(r@) == sig_errors(self.signature),
    {
        let mut errors: Vec<ValidationError> = Vec::new();
        if self.signature.version.as_str().is_empty() {
            errors.push(ValidationError::new("signature.version", "Version is required"));
        }
        if self.signature.source.as_str().is_empty() {
            errors.push(ValidationError::new("signature.source", "Source is required"));
        }
        proof {
            assert(err_views(errors@) =~= sig_errors(self.signature));
        }
        errors
    }

    /// Checks every record independently, accumulating violations in
    /// ascending index order.
    pub fn validate_asteroid_data(&self) -> (r: Vec<ValidationError>)
        ensures
            err_views(r@) == data_errors(self.data@),
    {
        let mut errors: Vec<ValidationError> = Vec::new();
        let mut i: usize = 0;
        proof {
            assert(self.data@.take(0) =~= Seq::<AsteroidData>::empty());
            assert(err_views(errors@) =~= data_errors(self.data@.take(0)));
        }
        while i < self.data.len()
            invariant
                0 <= i <= self.data@.len(),
                err_views(errors@) == data_errors(self.data@.take(i as int)),
            decreases self.data@.len() - i,
        {
            let ghost before = errors@;
            let a = &self.data[i];
            if a.des.as_str().is_empty() {
                let p = data_path(i, "].des");
                errors.push(ValidationError::new(p.as_str(), "Description (des) is required"));
            }
            if a.fullname.as_str().is_empty() {
                let p = data_path(i, "].fullname");
                errors.push(ValidationError::new(p.as_str(), "Full name is required"));
            }
            if a.obs_start.as_str().is_empty() || a.obs_end.as_str().is_empty() {
                let p = data_path(i, "].obs_start/obs_end");
                errors.push(
                    ValidationError::new(p.as_str(), "Observation start or end date is required"),
                );
            }
            proof {
                assert(self.data@.take(i + 1).drop_last() =~= self.data@.take(i as int));
                assert(self.data@.take(i + 1).last() == self.data@[i as int]);
                assert(err_views(errors@) =~= err_views(before) + asteroid_errors(
                    self.data@[i as int],
                    i as nat,
                ));
                assert(err_views(errors@) =~= data_errors(self.data@.take(i + 1)));
            }
            i += 1;
        }
        proof {
            assert(self.data@.take(self.data@.len() as int) =~= self.data@);
        }
        errors
    }
}

impl Validatable for NHAT_NASAResponse {
    /// Signature violations first, then per-record violations in ascending
    /// index order.
    open spec fn validation_spec(&self) -> Seq<ErrView> {
        sig_errors(self.signature) + data_errors(self.data@)
    }

    fn validate(&self) -> (r: Result<(), Vec<ValidationError>>) {
        let mut errors = self.validate_signature();
        let mut more = self.validate_asteroid_data();
        let ghost sig_part = errors@;
        let ghost data_part = more@;
        errors.append(&mut more);
        proof {
            assert(errors@ =~= sig_part + data_part);
            assert(err_views(errors@) =~= err_views(sig_part) + err_views(data_part));
        }
        if errors.len() == 0 {
            Ok(())
        } else {
            Err(errors)
        }
    }
}

/// A fully well-formed response yields an empty error list: non-empty
/// version and source, and in every record a non-empty des, fullname and
/// observation window.
pub proof fn lemma_validate_well_formed(r: NHAT_NASAResponse)
    requires
        r.signature.version@.len() > 0,
        r.signature.source@.len() > 0,
        forall|i: int|
            0 <= i < r.data@.len() ==> (#[trigger] r.data@[i]).des@.len() > 0
                && r.data@[i].fullname@.len() > 0 && r.data@[i].obs_start@.len() > 0
                && r.data@[i].obs_end@.len() > 0,
    ensures
        r.validation_spec().len() == 0,
{
    lemma_data_errors_well_formed(r.data@);
}

proof fn lemma_data_errors_well_formed(d: Seq<AsteroidData>)
    requires
        forall|i: int|
            0 <= i < d.len() ==> (#[trigger] d[i]).des@.len() > 0 && d[i].fullname@.len() > 0
                && d[i].obs_start@.len() > 0 && d[i].obs_end@.len() > 0,
    ensures
        data_errors(d).len() == 0,
    decreases d.len(),
{
    if d.len() > 0 {
        assert forall|i: int|
            0 <= i < d.drop_last().len() implies (#[trigger] d.drop_last()[i]).des@.len() > 0
            && d.drop_last()[i].fullname@.len() > 0 && d.drop_last()[i].obs_start@.len() > 0
            && d.drop_last()[i].obs_end@.len() > 0 by {
            assert(d.drop_last()[i] == d[i]);
        }
        lemma_data_errors_well_formed(d.drop_last());
        assert(d.last() == d[d.len() - 1]);
    }
}

} // verus!
