//! The errors that the service answers with, the field validation of its
//! inputs, and the response each error is turned into.

use vstd::prelude::*;

use crate::text::{lowercase, str_eq, to_lowercase};

verus! {

#[verifier::external_type_specification]
#[verifier::external_body]
pub struct ExValidationErrors(validator::ValidationErrors);

/// The field-level errors that a `validator::ValidationErrors` holds: for
/// each field, the codes of its errors in the order they were added.
pub uninterp spec fn field_codes(e: validator::ValidationErrors) -> Map<Seq<char>, Seq<Seq<char>>>;

/// The fields of a `validator::ValidationErrors` whose entry holds the
/// errors of a nested value rather than field-level errors.
pub uninterp spec fn nested_fields(e: validator::ValidationErrors) -> Set<Seq<char>>;

/// The codes recorded for `field` in `m`, none where it has no entry.
pub open spec fn codes_for(m: Map<Seq<char>, Seq<Seq<char>>>, field: Seq<char>) -> Seq<Seq<char>> {
    if m.dom().contains(field) {
        m[field]
    } else {
        Seq::empty()
    }
}

/// `m` with the code `code` added after the codes of `field`.
pub open spec fn with_code(m: Map<Seq<char>, Seq<Seq<char>>>, field: Seq<char>, code: Seq<char>) -> Map<
    Seq<char>,
    Seq<Seq<char>>,
> {
    m.insert(field, codes_for(m, field).push(code))
}

/// No field errors.
pub open spec fn no_codes() -> Map<Seq<char>, Seq<Seq<char>>> {
    Map::empty()
}

/// Wraps `validator::ValidationErrors::new`, which starts from an empty map.
#[verifier::external_body]
fn new_errors() -> (res: validator::ValidationErrors)
    ensures
        field_codes(res) == no_codes(),
        nested_fields(res) == Set::<Seq<char>>::empty(),
{
    validator::ValidationErrors::new()
}

/// Wraps `validator::ValidationErrors::add` with `ValidationError::new(code)`:
/// the source appends the error to the field's list, creating the list
/// where the field has no entry, and panics where the field's entry holds
/// nested errors, which `requires` leaves out.
#[verifier::external_body]
fn add_error(errors: &mut validator::ValidationErrors, field: &'static str, code: &'static str)
    requires
        !nested_fields(*old(errors)).contains(field@),
    ensures
        field_codes(*final(errors)) == with_code(field_codes(*old(errors)), field@, code@),
        nested_fields(*final(errors)) == nested_fields(*old(errors)),
    no_unwind
{
    errors.add(field, validator::ValidationError::new(code))
}

/// Wraps `validator::ValidationErrors::is_empty`: whether the map holds no
/// entry at all.
#[verifier::external_body]
fn errors_empty(errors: &validator::ValidationErrors) -> (res: bool)
    ensures
        res == (field_codes(*errors).dom() == Set::<Seq<char>>::empty() && nested_fields(
            *errors,
        ) == Set::<Seq<char>>::empty()),
{
    errors.is_empty()
}

/// Wraps `validator::ValidationErrors::field_errors`, each field with the
/// codes of its errors. The map is walked in `HashMap` order, which is not
/// stated: the list holds each field once, with its codes.
#[verifier::external_body]
fn field_error_list(errors: &validator::ValidationErrors) -> (res: Vec<(String, Vec<String>)>)
    ensures
        forall|i: int, k: int|
            0 <= i < k < res@.len() ==> #[trigger] res@[i].0@ != #[trigger] res@[k].0@,
        forall|i: int|
            #![trigger res@[i]]
            0 <= i < res@.len() ==> field_codes(*errors).dom().contains(res@[i].0@)
                && field_codes(*errors)[res@[i].0@] == res@[i].1@.map_values(|c: String| c@),
        forall|f: Seq<char>|
            #[trigger] field_codes(*errors).dom().contains(f) ==> exists|i: int|
                0 <= i < res@.len() && #[trigger] res@[i].0@ == f,
{
    errors.field_errors().into_iter().map(
        |(field, list)| (field.to_string(), list.iter().map(|e| e.code.to_string()).collect()),
    ).collect()
}

/// HTTP status 400.
pub const STATUS_BAD_REQUEST: u16 = 400;

/// HTTP status 401.
pub const STATUS_UNAUTHORIZED: u16 = 401;

/// HTTP status 422.
pub const STATUS_UNPROCESSABLE_ENTITY: u16 = 422;

/// HTTP status 424.
pub const STATUS_FAILED_DEPENDENCY: u16 = 424;

/// HTTP status 500.
pub const STATUS_INTERNAL_SERVER_ERROR: u16 = 500;

/// Field errors with the HTTP status to answer them with.
pub struct StatusValidationErrors {
    status: u16,
    errors: validator::ValidationErrors,
}

impl StatusValidationErrors {
    /// The field errors held, by field.
    pub closed spec fn codes(&self) -> Map<Seq<char>, Seq<Seq<char>>> {
        field_codes(self.errors)
    }

    /// The HTTP status to answer with.
    pub closed spec fn spec_status(&self) -> u16 {
        self.status
    }

    /// Whether no entry holds nested errors.
    pub closed spec fn flat(&self) -> bool {
        nested_fields(self.errors) == Set::<Seq<char>>::empty()
    }

    /// The HTTP status to answer with.
    pub fn status(&self) -> (res: u16)
        ensures
            res == self.spec_status(),
    {
        self.status
    }

    /// Each field with the codes of its errors, each field once.
    pub fn field_errors(&self) -> (res: Vec<(String, Vec<String>)>)
        ensures
            forall|i: int, k: int|
                0 <= i < k < res@.len() ==> #[trigger] res@[i].0@ != #[trigger] res@[k].0@,
            forall|i: int|
                #![trigger res@[i]]
                0 <= i < res@.len() ==> self.codes().dom().contains(res@[i].0@)
                    && self.codes()[res@[i].0@] == res@[i].1@.map_values(|c: String| c@),
            forall|f: Seq<char>|
                #[trigger] self.codes().dom().contains(f) ==> exists|i: int|
                    0 <= i < res@.len() && #[trigger] res@[i].0@ == f,
    {
        field_error_list(&self.errors)
    }

    /// The field errors listed as `(field, code)` pairs, in order, answered
    /// with the given status, 500 where none is given.
    pub fn new(errs: &[(&'static str, &'static str)], resp_status: Option<u16>) -> (res: Self)
        ensures
            res.codes() == codes_of_pairs(errs@),
            res.flat(),
            res.spec_status() == match resp_status {
                Some(s) => s,
                None => STATUS_INTERNAL_SERVER_ERROR,
            },
    {
        let mut errors = new_errors();
        let mut i: usize = 0;
        while i < errs.len()
            invariant
                0 <= i <= errs@.len(),
                field_codes(errors) == codes_of_pairs(errs@.take(i as int)),
                nested_fields(errors) == Set::<Seq<char>>::empty(),
            decreases errs@.len() - i,
        {
            let (field, code) = errs[i];
            add_error(&mut errors, field, code);
            assert(errs@.take(i + 1).drop_last() =~= errs@.take(i as int));
            i = i + 1;
        }
        assert(errs@.take(errs@.len() as int) =~= errs@);
        StatusValidationErrors {
            status: match resp_status {
                Some(s) => s,
                None => STATUS_INTERNAL_SERVER_ERROR,
            },
            errors,
        }
    }
}

/// The field errors of a list of `(field, code)` pairs, added in order.
pub open spec fn codes_of_pairs(errs: Seq<(&'static str, &'static str)>) -> Map<
    Seq<char>,
    Seq<Seq<char>>,
>
    decreases errs.len(),
{
    if errs.len() == 0 {
        Map::empty()
    } else {
        with_code(codes_of_pairs(errs.drop_last()), errs.last().0@, errs.last().1@)
    }
}

/// What went wrong while answering a request.
pub enum Error {
    /// Input fields that did not validate.
    ValidationError(StatusValidationErrors),
    /// A database call failed; the text is the database error's.
    DatabaseError(String),
    /// The caller may not do this.
    AuthorizationError(&'static str),
    /// A call to another service failed; the text is the HTTP error's.
    HttpError(String),
    /// The request cannot be served as it stands.
    BadRequest(&'static str),
    /// Any other failure.
    Custom(&'static str),
}

impl From<StatusValidationErrors> for Error {
    fn from(err: StatusValidationErrors) -> (res: Self) {
        Error::ValidationError(err)
    }
}

impl vstd::std_specs::convert::FromSpecImpl<StatusValidationErrors> for Error {
    open spec fn obeys_from_spec() -> bool {
        true
    }

    open spec fn from_spec(v: StatusValidationErrors) -> Self {
        Error::ValidationError(v)
    }
}

/// The body of an error response.
pub enum ErrorBody {
    /// `{"errors": {field: [code, ...], ...}}`: each field with its codes.
    Errors(Vec<(String, Vec<String>)>),
    /// `{"error": message}`.
    Message(String),
}

/// The HTTP status and body that an error is answered with.
pub struct ErrorResponse {
    pub status: u16,
    pub body: ErrorBody,
}

/// Whether `list` holds each field of `m` once, with its codes, and
/// nothing else.
pub open spec fn lists_codes(list: Seq<(String, Vec<String>)>, m: Map<Seq<char>, Seq<Seq<char>>>) -> bool {
    &&& forall|i: int, k: int|
        0 <= i < k < list.len() ==> #[trigger] list[i].0@ != #[trigger] list[k].0@
    &&& forall|i: int|
        #![trigger list[i]]
        0 <= i < list.len() ==> m.dom().contains(list[i].0@) && m[list[i].0@] == list[i].1@.map_values(
            |c: String| c@,
        )
    &&& forall|f: Seq<char>|
        #[trigger] m.dom().contains(f) ==> exists|i: int| 0 <= i < list.len() && #[trigger] list[i].0@ == f
}

/// Whether `r` answers with `status` and the message `msg`.
pub open spec fn is_message(r: ErrorResponse, status: u16, msg: Seq<char>) -> bool {
    r.status == status && (r.body matches ErrorBody::Message(m) && m@ == msg)
}

impl Error {
    /// The response this error is answered with: field errors with their
    /// own status and each field's codes; a failed database call with 500
    /// and a generic message; an authorization error with 401 and its
    /// message; a failed outside call with 424 and a request to retry; a
    /// bad request with 400; any other error with 500 and its message.
    pub fn respond_to(self) -> (res: ErrorResponse)
        ensures
            match self {
                Error::ValidationError(v) => res.status == v.spec_status() && (res.body matches ErrorBody::Errors(
                    list,
                ) && lists_codes(list@, v.codes())),
                Error::DatabaseError(_) => is_message(
                    res,
                    STATUS_INTERNAL_SERVER_ERROR,
                    "Something went wrong! :("@,
                ),
                Error::AuthorizationError(m) => is_message(res, STATUS_UNAUTHORIZED, m@),
                Error::HttpError(_) => is_message(
                    res,
                    STATUS_FAILED_DEPENDENCY,
                    "Some API request failed, try again later!"@,
                ),
                Error::BadRequest(m) => is_message(res, STATUS_BAD_REQUEST, m@),
                Error::Custom(m) => is_message(res, STATUS_INTERNAL_SERVER_ERROR, m@),
            },
    {
        match self {
            Error::ValidationError(err) => {
                let list = err.field_errors();
                ErrorResponse { status: err.status(), body: ErrorBody::Errors(list) }
            },
            Error::DatabaseError(_) => ErrorResponse {
                status: STATUS_INTERNAL_SERVER_ERROR,
                body: ErrorBody::Message(String::from_str("Something went wrong! :(")),
            },
            Error::AuthorizationError(msg) => ErrorResponse {
                status: STATUS_UNAUTHORIZED,
                body: ErrorBody::Message(String::from_str(msg)),
            },
            Error::HttpError(_) => ErrorResponse {
                status: STATUS_FAILED_DEPENDENCY,
                body: ErrorBody::Message(String::from_str("Some API request failed, try again later!")),
            },
            Error::BadRequest(msg) => ErrorResponse {
                status: STATUS_BAD_REQUEST,
                body: ErrorBody::Message(String::from_str(msg)),
            },
            Error::Custom(msg) => ErrorResponse {
                status: STATUS_INTERNAL_SERVER_ERROR,
                body: ErrorBody::Message(String::from_str(msg)),
            },
        }
    }
}

/// Field validation of an input value, as a `#[derive(Validate)]` of the
/// `validator` crate checks the attributes of its fields.
pub trait Validate {
    /// The field errors that validating this value reports.
    spec fn spec_field_errors(&self) -> Map<Seq<char>, Seq<Seq<char>>>;

    /// Validates the value: `Ok` where no field has an error, else every
    /// field error.
    fn validate(&self) -> (res: Result<(), validator::ValidationErrors>)
        ensures
            res is Ok <==> self.spec_field_errors().dom() == Set::<Seq<char>>::empty(),
            res matches Err(e) ==> field_codes(e) == self.spec_field_errors() && nested_fields(e)
                == Set::<Seq<char>>::empty(),
    ;
}

/// `m` with a `"length"` error for `field` where `value` is an empty string.
pub open spec fn with_min_length_check(
    m: Map<Seq<char>, Seq<Seq<char>>>,
    field: Seq<char>,
    value: Option<String>,
) -> Map<Seq<char>, Seq<Seq<char>>> {
    match value {
        Some(s) => if s@.len() < 1 {
            with_code(m, field, "length"@)
        } else {
            m
        },
        None => m,
    }
}

/// Field errors being collected; none of its entries holds nested errors.
pub struct FieldErrorList {
    errors: validator::ValidationErrors,
}

impl FieldErrorList {
    #[verifier::type_invariant]
    closed spec fn flat(self) -> bool {
        nested_fields(self.errors) == Set::<Seq<char>>::empty()
    }

    /// The field errors collected so far.
    pub closed spec fn codes(&self) -> Map<Seq<char>, Seq<Seq<char>>> {
        field_codes(self.errors)
    }

    /// No field errors.
    pub fn new() -> (res: Self)
        ensures
            res.codes() == no_codes(),
    {
        FieldErrorList { errors: new_errors() }
    }

    /// Adds a `"length"` error for `field` where the value, if any, is an
    /// empty string: the `length(min = 1)` check of `validator`, which
    /// counts characters and passes over a missing value.
    pub fn check_min_length(&mut self, field: &'static str, value: &Option<String>)
        ensures
            final(self).codes() == with_min_length_check(old(self).codes(), field@, *value),
    {
        proof {
            use_type_invariant(&*self);
        }
        match value {
            Some(s) => {
                if s.as_str().is_empty() {
                    add_error(&mut self.errors, field, "length");
                }
            },
            None => {},
        }
    }

    /// `Ok` where no error was collected, else the errors.
    pub fn into_result(self) -> (res: Result<(), validator::ValidationErrors>)
        ensures
            res is Ok <==> self.codes().dom() == Set::<Seq<char>>::empty(),
            res matches Err(e) ==> field_codes(e) == self.codes() && nested_fields(e) == Set::<
                Seq<char>,
            >::empty(),
    {
        proof {
            use_type_invariant(&self);
        }
        if errors_empty(&self.errors) {
            Ok(())
        } else {
            Err(self.errors)
        }
    }
}

/// The errors of the timeline period checks, added to `m`: an invalid
/// period where `start` is negative or after `end`, a too long one where
/// it spans more than 370 days, and an invalid interval where the
/// lowercased interval name is none of hour, day, week, month and year.
pub open spec fn period_errors(m: Map<Seq<char>, Seq<Seq<char>>>, start: int, end: int, lowered: Seq<
    char,
>) -> Map<Seq<char>, Seq<Seq<char>>> {
    let m1 = if start < 0 || start > end {
        with_code(m, "period"@, "Invalid period!"@)
    } else {
        m
    };
    let m2 = if end - start > 370 * 24 * 60 * 60 {
        with_code(m1, "period"@, "Too long period!"@)
    } else {
        m1
    };
    if !(lowered == "hour"@ || lowered == "day"@ || lowered == "week"@ || lowered == "month"@
        || lowered == "year"@) {
        with_code(m2, "interval"@, "Invalid interval!"@)
    } else {
        m2
    }
}

/// The timeline period checks: an `"Invalid interval!"` error is added
/// for the interval exactly when the lowercased name is none of `hour`,
/// `day`, `week`, `month` and `year`; `"Invalid period!"` where the start
/// is negative or after the end, then `"Too long period!"` where the
/// period spans more than 370 days; no other field is touched.
pub proof fn law_period_checks(
    m: Map<Seq<char>, Seq<Seq<char>>>,
    start: int,
    end: int,
    lowered: Seq<char>,
    f: Seq<char>,
)
    ensures
        codes_for(period_errors(m, start, end, lowered), "interval"@) == if lowered == "hour"@
            || lowered == "day"@ || lowered == "week"@ || lowered == "month"@ || lowered == "year"@ {
            codes_for(m, "interval"@)
        } else {
            codes_for(m, "interval"@).push("Invalid interval!"@)
        },
        codes_for(period_errors(m, start, end, lowered), "period"@) == codes_for(m, "period"@) + (
        if start < 0 || start > end {
            seq!["Invalid period!"@]
        } else {
            Seq::<Seq<char>>::empty()
        }) + (if end - start > 31968000 {
            seq!["Too long period!"@]
        } else {
            Seq::<Seq<char>>::empty()
        }),
        f != "interval"@ && f != "period"@ ==> codes_for(period_errors(m, start, end, lowered), f)
            == codes_for(m, f),
{
    reveal_strlit("interval");
    reveal_strlit("period");
    let p = "period"@;
    let i = "interval"@;
    assert(p.len() != i.len());
    assert(p != i);
    let m1 = if start < 0 || start > end {
        with_code(m, p, "Invalid period!"@)
    } else {
        m
    };
    let m2 = if end - start > 370 * 24 * 60 * 60 {
        with_code(m1, p, "Too long period!"@)
    } else {
        m1
    };
    assert(370 * 24 * 60 * 60 == 31968000);
    assert(codes_for(m1, i) == codes_for(m, i));
    assert(codes_for(m2, i) == codes_for(m, i));
    assert(f != i && f != p ==> codes_for(m2, f) == codes_for(m, f));
    assert(codes_for(m, p) + Seq::<Seq<char>>::empty() =~= codes_for(m, p));
    if start < 0 || start > end {
        assert(codes_for(m1, p) =~= codes_for(m, p) + seq!["Invalid period!"@]);
        if end - start > 31968000 {
            assert(codes_for(m2, p) =~= codes_for(m, p) + seq!["Invalid period!"@] + seq!["Too long period!"@]);
        } else {
            assert(codes_for(m2, p) =~= codes_for(m, p) + seq!["Invalid period!"@] + Seq::<Seq<char>>::empty());
        }
    } else if end - start > 31968000 {
        assert(codes_for(m2, p) =~= codes_for(m, p) + Seq::<Seq<char>>::empty() + seq!["Too long period!"@]);
    } else {
        assert(codes_for(m2, p) =~= codes_for(m, p) + Seq::<Seq<char>>::empty() + Seq::<Seq<char>>::empty());
    }
    assert(period_errors(m, start, end, lowered) == (if !(lowered == "hour"@ || lowered == "day"@
        || lowered == "week"@ || lowered == "month"@ || lowered == "year"@) {
        with_code(m2, i, "Invalid interval!"@)
    } else {
        m2
    }));
}

/// Collects the field errors of a request: those its validation reports
/// and those found while reading its fields.
pub struct FieldValidator {
    errors: validator::ValidationErrors,
}

impl View for FieldValidator {
    type V = Map<Seq<char>, Seq<Seq<char>>>;

    closed spec fn view(&self) -> Map<Seq<char>, Seq<Seq<char>>> {
        field_codes(self.errors)
    }
}

impl Default for FieldValidator {
    fn default() -> (res: Self)
        ensures
            res@ == no_codes(),
    {
        FieldValidator { errors: new_errors() }
    }
}

impl FieldValidator {
    #[verifier::type_invariant]
    closed spec fn flat(self) -> bool {
        nested_fields(self.errors) == Set::<Seq<char>>::empty()
    }

    /// Starts from the field errors that validating `model` reports.
    pub fn validate<T: Validate>(model: &T) -> (res: Self)
        ensures
            res@ == model.spec_field_errors(),
    {
        let errors = match model.validate() {
            Ok(()) => new_errors(),
            Err(e) => e,
        };
        FieldValidator { errors }
    }

    /// `Ok` where no field error was collected; else a validation error,
    /// answered with 422, holding them all.
    pub fn check(self) -> (res: Result<(), Error>)
        ensures
            res is Ok <==> self@.dom() == Set::<Seq<char>>::empty(),
            res is Err ==> (res->Err_0 matches Error::ValidationError(v) && v.codes() == self@
                && v.spec_status() == STATUS_UNPROCESSABLE_ENTITY && v.flat()),
    {
        proof {
            use_type_invariant(&self);
        }
        if errors_empty(&self.errors) {
            Ok(())
        } else {
            Err(
                Error::ValidationError(
                    StatusValidationErrors {
                        status: STATUS_UNPROCESSABLE_ENTITY,
                        errors: self.errors,
                    },
                ),
            )
        }
    }

    /// The value of a field that must be present: where it is missing, a
    /// `"can't be blank"` error is recorded for it and the type's default
    /// value is returned.
    pub fn extract<T: Default>(&mut self, field_name: &'static str, field: Option<T>) -> (res: T)
        ensures
            match field {
                Some(v) => res == v && final(self)@ == old(self)@,
                None => T::default.ensures((), res) && final(self)@ == with_code(
                    old(self)@,
                    field_name@,
                    "can't be blank"@,
                ),
            },
    {
        proof {
            use_type_invariant(&*self);
        }
        match field {
            Some(v) => v,
            None => {
                add_error(&mut self.errors, field_name, "can't be blank");
                T::default()
            },
        }
    }

    /// Checks a timeline request's period and interval name (in any case).
    pub fn validate_timeline_period(&mut self, start: i64, end: i64, interval: &str)
        requires
            i64::MIN <= end - start <= i64::MAX,
        ensures
            final(self)@ == period_errors(old(self)@, start as int, end as int, lowercase(interval@)),
    {
        proof {
            use_type_invariant(&*self);
        }
        if start < 0 || start > end {
            add_error(&mut self.errors, "period", "Invalid period!");
        }
        if end - start > (370 * 24 * 60 * 60) {
            add_error(&mut self.errors, "period", "Too long period!");
        }
        let lowered = to_lowercase(interval);
        let l = lowered.as_str();
        if !(str_eq(l, "hour") || str_eq(l, "day") || str_eq(l, "week") || str_eq(l, "month")
            || str_eq(l, "year")) {
            add_error(&mut self.errors, "interval", "Invalid interval!");
        }
    }
}

} // verus!
