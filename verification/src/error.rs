//! The one-line texts errors are shown with.
use vstd::prelude::*;

use crate::text::push_str;

verus! {

/// `needle` occurs in `hay`.
pub open spec fn contains_seq(hay: Seq<char>, needle: Seq<char>) -> bool {
    exists|i: int| 0 <= i && i + needle.len() <= hay.len() && #[trigger] hay.subrange(i, i + needle.len()) == needle
}

/// The causes of an error joined by `": "`, from the text `s` built so far;
/// a cause whose text already occurs in what came before it ends the text,
/// which then loses the separator before it.
pub open spec fn join_causes(causes: Seq<Seq<char>>, s: Seq<char>) -> Seq<char>
    decreases causes.len(),
{
    if causes.len() == 0 {
        s
    } else {
        let prefix = if s.len() == 0 {
            s
        } else {
            s + ": "@
        };
        if contains_seq(prefix, causes[0]) {
            if prefix.len() >= 2 {
                prefix.take(prefix.len() - 2)
            } else {
                Seq::empty()
            }
        } else {
            join_causes(causes.skip(1), prefix + causes[0])
        }
    }
}

/// The texts of the causes.
pub open spec fn texts(causes: Seq<String>) -> Seq<Seq<char>> {
    causes.map_values(|c: String| c@)
}

/// Whether `needle` occurs in `hay`.
fn contains(hay: &str, needle: &str) -> (res: bool)
    ensures
        res == contains_seq(hay@, needle@),
{
    let n = hay.unicode_len();
    let m = needle.unicode_len();
    if m > n {
        proof {
            assert forall|i: int| 0 <= i && i + needle@.len() <= hay@.len() implies #[trigger] hay@.subrange(
                i,
                i + needle@.len(),
            ) != needle@ by {}
        }
        return false;
    }
    let mut i: usize = 0;
    while i <= n - m
        invariant
            n == hay@.len(),
            m == needle@.len(),
            m <= n,
            i <= n - m + 1,
            forall|k: int| 0 <= k < i ==> #[trigger] hay@.subrange(k, k + m) != needle@,
        decreases n - m + 1 - i,
    {
        let mut j: usize = 0;
        let mut same = true;
        while j < m
            invariant
                n == hay@.len(),
                m == needle@.len(),
                i + m <= n,
                j <= m,
                same == (forall|k: int| 0 <= k < j ==> hay@[i + k] == needle@[k]),
            decreases m - j,
        {
            if hay.get_char(i + j) != needle.get_char(j) {
                same = false;
            }
            j = j + 1;
        }
        if same {
            proof {
                assert(hay@.subrange(i as int, i + m) =~= needle@);
            }
            return true;
        }
        proof {
            let k = choose|k: int| 0 <= k < m && hay@[i + k] != needle@[k];
            assert(hay@.subrange(i as int, i + m)[k] != needle@[k]);
        }
        i = i + 1;
    }
    false
}

/// The text of an error with the given chain of causes, outermost first,
/// each as its `Display` writes it.
pub fn fmt_err(causes: &Vec<String>) -> (res: String)
    ensures
        res@ == join_causes(texts(causes@), Seq::empty()),
{
    let ghost all = texts(causes@);
    let mut s = String::new();
    let mut i: usize = 0;
    proof {
        assert(all.skip(0) == all);
    }
    while i < causes.len()
        invariant
            all == texts(causes@),
            i <= causes@.len(),
            join_causes(all.skip(i as int), s@) == join_causes(all, Seq::empty()),
        decreases causes@.len() - i,
    {
        let ghost rest = all.skip(i as int);
        proof {
            assert(rest[0] == causes@[i as int]@);
            assert(rest.skip(1) == all.skip(i + 1));
        }
        if s.unicode_len() > 0 {
            push_str(&mut s, ": ");
        }
        let cause = causes[i].as_str();
        if contains(s.as_str(), cause) {
            let len = s.unicode_len();
            let keep = if len >= 2 { len - 2 } else { 0 };
            let res = s.as_str().substring_char(0, keep).to_owned();
            proof {
                reveal_strlit(": ");
                if len < 2 {
                    assert(res@ =~= Seq::<char>::empty());
                }
            }
            return res;
        }
        push_str(&mut s, cause);
        i = i + 1;
    }
    proof {
        assert(all.skip(i as int).len() == 0);
    }
    s
}

/// The status codes of gRPC.
#[derive(Debug, Clone, Copy, PartialEq, Eq, Structural)]
pub enum GrpcCode {
    Success,
    Cancelled,
    Unknown,
    InvalidArgument,
    DeadlineExceeded,
    NotFound,
    AlreadyExists,
    PermissionDenied,
    ResourceExhausted,
    FailedPrecondition,
    Aborted,
    OutOfRange,
    Unimplemented,
    Internal,
    Unavailable,
    DataLoss,
    Unauthenticated,
}

/// The status code with number `n`; numbers without a code stand for
/// `Unknown`.
pub open spec fn code_of(n: i32) -> GrpcCode {
    if n == 0 { GrpcCode::Success }
    else if n == 1 { GrpcCode::Cancelled }
    else if n == 3 { GrpcCode::InvalidArgument }
    else if n == 4 { GrpcCode::DeadlineExceeded }
    else if n == 5 { GrpcCode::NotFound }
    else if n == 6 { GrpcCode::AlreadyExists }
    else if n == 7 { GrpcCode::PermissionDenied }
    else if n == 8 { GrpcCode::ResourceExhausted }
    else if n == 9 { GrpcCode::FailedPrecondition }
    else if n == 10 { GrpcCode::Aborted }
    else if n == 11 { GrpcCode::OutOfRange }
    else if n == 12 { GrpcCode::Unimplemented }
    else if n == 13 { GrpcCode::Internal }
    else if n == 14 { GrpcCode::Unavailable }
    else if n == 15 { GrpcCode::DataLoss }
    else if n == 16 { GrpcCode::Unauthenticated }
    else { GrpcCode::Unknown }
}

impl GrpcCode {
    /// The status code with number `n`, as gRPC numbers them; `Unknown` for
    /// a number without a code.
    pub fn from_i32(n: i32) -> (res: GrpcCode)
        ensures
            res == code_of(n),
    {
        match n {
            0 => GrpcCode::Success,
            1 => GrpcCode::Cancelled,
            3 => GrpcCode::InvalidArgument,
            4 => GrpcCode::DeadlineExceeded,
            5 => GrpcCode::NotFound,
            6 => GrpcCode::AlreadyExists,
            7 => GrpcCode::PermissionDenied,
            8 => GrpcCode::ResourceExhausted,
            9 => GrpcCode::FailedPrecondition,
            10 => GrpcCode::Aborted,
            11 => GrpcCode::OutOfRange,
            12 => GrpcCode::Unimplemented,
            13 => GrpcCode::Internal,
            14 => GrpcCode::Unavailable,
            15 => GrpcCode::DataLoss,
            16 => GrpcCode::Unauthenticated,
            _ => GrpcCode::Unknown,
        }
    }
}

/// The name of each status code.
pub open spec fn code_name(code: GrpcCode) -> Seq<char> {
    match code {
        GrpcCode::Success => "OK"@,
        GrpcCode::Cancelled => "CANCELLED"@,
        GrpcCode::Unknown => "UNKNOWN"@,
        GrpcCode::InvalidArgument => "INVALID_ARGUMENT"@,
        GrpcCode::DeadlineExceeded => "DEADLINE_EXCEEDED"@,
        GrpcCode::NotFound => "NOT_FOUND"@,
        GrpcCode::AlreadyExists => "ALREADY_EXISTS"@,
        GrpcCode::PermissionDenied => "PERMISSION_DENIED"@,
        GrpcCode::ResourceExhausted => "RESOURCE_EXHAUSTED"@,
        GrpcCode::FailedPrecondition => "FAILED_PRECONDITION"@,
        GrpcCode::Aborted => "ABORTED"@,
        GrpcCode::OutOfRange => "OUT_OF_RANGE"@,
        GrpcCode::Unimplemented => "UNIMPLEMENTED"@,
        GrpcCode::Internal => "INTERNAL"@,
        GrpcCode::Unavailable => "UNAVAILABLE"@,
        GrpcCode::DataLoss => "DATA_LOSS"@,
        GrpcCode::Unauthenticated => "UNAUTHENTICATED"@,
    }
}

/// The name of a status code.
pub fn fmt_code(code: GrpcCode) -> (res: &'static str)
    ensures
        res@ == code_name(code),
{
    match code {
        GrpcCode::Success => "OK",
        GrpcCode::Cancelled => "CANCELLED",
        GrpcCode::Unknown => "UNKNOWN",
        GrpcCode::InvalidArgument => "INVALID_ARGUMENT",
        GrpcCode::DeadlineExceeded => "DEADLINE_EXCEEDED",
        GrpcCode::NotFound => "NOT_FOUND",
        GrpcCode::AlreadyExists => "ALREADY_EXISTS",
        GrpcCode::PermissionDenied => "PERMISSION_DENIED",
        GrpcCode::ResourceExhausted => "RESOURCE_EXHAUSTED",
        GrpcCode::FailedPrecondition => "FAILED_PRECONDITION",
        GrpcCode::Aborted => "ABORTED",
        GrpcCode::OutOfRange => "OUT_OF_RANGE",
        GrpcCode::Unimplemented => "UNIMPLEMENTED",
        GrpcCode::Internal => "INTERNAL",
        GrpcCode::Unavailable => "UNAVAILABLE",
        GrpcCode::DataLoss => "DATA_LOSS",
        GrpcCode::Unauthenticated => "UNAUTHENTICATED",
    }
}

/// The text of a connection error: where its root cause is an I/O error,
/// `failed to connect: ` and that error's text; else the chain of causes.
pub open spec fn connect_err_text(io_error: Option<Seq<char>>, causes: Seq<Seq<char>>) -> Seq<char> {
    match io_error {
        Some(e) => "failed to connect: "@ + e,
        None => join_causes(causes, Seq::empty()),
    }
}

/// The text of a connection error, given the text of its root cause where
/// that is an I/O error, and the texts of its chain of causes.
pub fn fmt_connect_err(io_error: &Option<String>, causes: &Vec<String>) -> (res: String)
    ensures
        res@ == connect_err_text(
            match io_error {
                Some(e) => Some(e@),
                None => None,
            },
            texts(causes@),
        ),
{
    match io_error {
        Some(e) => {
            let mut s = "failed to connect: ".to_owned();
            push_str(&mut s, e.as_str());
            s
        },
        None => fmt_err(causes),
    }
}

/// The text of a call error: where it is a gRPC status, its code's name and
/// its message after `": "` unless the message is empty; else as a
/// connection error.
pub open spec fn grpc_err_text(
    status: Option<(GrpcCode, Seq<char>)>,
    io_error: Option<Seq<char>>,
    causes: Seq<Seq<char>>,
) -> Seq<char> {
    match status {
        Some((code, message)) => if message.len() == 0 {
            code_name(code)
        } else {
            code_name(code) + ": "@ + message
        },
        None => connect_err_text(io_error, causes),
    }
}

/// The text of a call error, given its gRPC status where it is one, the text
/// of its root cause where that is an I/O error, and the texts of its causes.
pub fn fmt_grpc_err(status: &Option<(GrpcCode, String)>, io_error: &Option<String>, causes: &Vec<String>) -> (res: String)
    ensures
        res@ == grpc_err_text(
            match status {
                Some((c, m)) => Some((*c, m@)),
                None => None,
            },
            match io_error {
                Some(e) => Some(e@),
                None => None,
            },
            texts(causes@),
        ),
{
    match status {
        Some((code, message)) => {
            let mut s = fmt_code(*code).to_owned();
            if message.as_str().unicode_len() > 0 {
                push_str(&mut s, ": ");
                push_str(&mut s, message.as_str());
            }
            s
        },
        None => fmt_connect_err(io_error, causes),
    }
}

} // verus!
