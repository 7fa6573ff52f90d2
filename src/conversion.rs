use vstd::prelude::*;
use crate::attrs::{configures, takes_empty, AttrMap};
use crate::context::{FrameV, Log};
use crate::error::{displays_as, err, has_parts, render_tree, with_context, Error};
use crate::level::Level;
use crate::render::RenderBranch;

verus! {

/// Whether `e` is the error that `Error::from` makes of `x`: its message is `x` as
/// `to_string` shows it, and it has nothing else.
pub open spec fn converted<T: std::fmt::Display>(x: T, e: Error) -> bool {
    &&& displays_as(x, e.message())
    &&& e.attrs().len() == 0
    &&& e.contexts().len() == 0
    &&& e.causes().len() == 0
    &&& e.incidental().len() == 0
}

/// Adds a layer of context to any value that can be shown as text, such as a
/// standard error, turning it into an `Error` whose message is that text.
pub trait ErrContext: Sized {
    /// A new error with `message` caused by this one.
    fn context(self, message: &str) -> Error;

    /// A new error with `message` and the attributes that `attrs` configures,
    /// caused by this one.
    fn context_with<F: FnOnce(AttrMap) -> AttrMap>(self, message: &str, attrs: F) -> Error
        requires
            takes_empty(attrs),
    ;

    /// A new error with `message` and the context chain `log`, caused by this one.
    fn stack_context(self, log: &Log, message: &str) -> Error;

    /// A new error with `message`, the attributes that `attrs` configures and the
    /// context chain `log`, caused by this one.
    fn stack_context_with<F: FnOnce(AttrMap) -> AttrMap>(self, log: &Log, message: &str, attrs: F) -> Error
        requires
            takes_empty(attrs),
    ;
}

impl<T: std::fmt::Display> ErrContext for T {
    fn context(self, message: &str) -> (r: Error)
        ensures
            r.message() == message@,
            r.attrs().len() == 0,
            r.contexts().len() == 0,
            r.causes().len() == 1,
            converted(self, r.causes()[0]),
            r.incidental().len() == 0,
    {
        Error::from(self).context(message)
    }

    fn context_with<F: FnOnce(AttrMap) -> AttrMap>(self, message: &str, attrs: F) -> (r: Error)
        ensures
            r.message() == message@,
            configures(attrs, r.attrs()),
            r.contexts().len() == 0,
            r.causes().len() == 1,
            converted(self, r.causes()[0]),
            r.incidental().len() == 0,
    {
        Error::from(self).context_with(message, attrs)
    }

    fn stack_context(self, log: &Log, message: &str) -> (r: Error)
        ensures
            r.message() == message@,
            r.attrs().len() == 0,
            r.contexts() == seq![log.frames()],
            r.causes().len() == 1,
            converted(self, r.causes()[0]),
            r.incidental().len() == 0,
    {
        Error::from(self).stack_context(log, message)
    }

    fn stack_context_with<F: FnOnce(AttrMap) -> AttrMap>(self, log: &Log, message: &str, attrs: F) -> (r: Error)
        ensures
            r.message() == message@,
            configures(attrs, r.attrs()),
            r.contexts() == seq![log.frames()],
            r.causes().len() == 1,
            converted(self, r.causes()[0]),
            r.incidental().len() == 0,
    {
        Error::from(self).stack_context_with(log, message, attrs)
    }
}

/// Whether the tree `b` is what `log` logs for the error `e`: that of `e` with the
/// chain of `log` attached.
pub open spec fn logged_tree(log: Log, e: Error, b: RenderBranch) -> bool {
    exists|e2: Error| with_context(e, log.frames(), e2) && b@ == #[trigger] render_tree(e2, Seq::empty())
}

/// Helpers on `Result` and `Option` that turn a failure into an `Error` with
/// context, attach incidental errors, or log a failure.
pub trait ResultContext<O>: Sized {
    /// On failure, an error with `message` caused by the failure.
    fn context(self, message: &str) -> Result<O, Error>;

    /// On failure, an error with `message` and the attributes that `attrs`
    /// configures, caused by the failure.
    fn context_with<F: FnOnce(AttrMap) -> AttrMap>(self, message: &str, attrs: F) -> Result<O, Error>
        requires
            takes_empty(attrs),
    ;

    /// On failure, an error with `message` and the context chain `log`, caused by
    /// the failure.
    fn stack_context(self, log: &Log, message: &str) -> Result<O, Error>;

    /// On failure, an error with `message`, the attributes that `attrs` configures
    /// and the context chain `log`, caused by the failure.
    fn stack_context_with<F: FnOnce(AttrMap) -> AttrMap>(self, log: &Log, message: &str, attrs: F) -> Result<
        O,
        Error,
    >
        requires
            takes_empty(attrs),
    ;

    /// Combines this outcome with that of a second operation: when both failed,
    /// the second error is attached to the first as incidental; when only the
    /// second failed, its error is the result.
    fn also<O2>(self, r: Result<O2, Error>) -> Result<O, Error>;

    /// On failure, the tree that `log` logs at `level` for an error with `message`
    /// caused by the failure.
    fn log(self, log: &Log, level: Level, message: &str) -> Option<RenderBranch>;

    /// On failure, the tree that `log` logs at `level` for an error with `message`
    /// and the attributes that `attrs` configures, caused by the failure.
    fn log_with<F: FnOnce(AttrMap) -> AttrMap>(self, log: &Log, level: Level, message: &str, attrs: F) -> Option<
        RenderBranch,
    >
        requires
            takes_empty(attrs),
    ;
}

impl<O> ResultContext<O> for Result<O, Error> {
    fn context(self, message: &str) -> (r: Result<O, Error>)
        ensures
            match self {
                Ok(x) => r == Ok::<O, Error>(x),
                Err(e) => r is Err && has_parts(r->Err_0, message@, Seq::empty(), Seq::empty(), seq![e], Seq::empty()),
            },
    {
        match self {
            Ok(x) => Ok(x),
            Err(e) => Err(e.context(message)),
        }
    }

    fn context_with<F: FnOnce(AttrMap) -> AttrMap>(self, message: &str, attrs: F) -> (r: Result<O, Error>)
        ensures
            match self {
                Ok(x) => r == Ok::<O, Error>(x),
                Err(e) => r is Err && configures(attrs, r->Err_0.attrs()) && r->Err_0.message() == message@
                    && r->Err_0.contexts().len() == 0 && r->Err_0.causes() == seq![e]
                    && r->Err_0.incidental().len() == 0,
            },
    {
        match self {
            Ok(x) => Ok(x),
            Err(e) => Err(e.context_with(message, attrs)),
        }
    }

    fn stack_context(self, log: &Log, message: &str) -> (r: Result<O, Error>)
        ensures
            match self {
                Ok(x) => r == Ok::<O, Error>(x),
                Err(e) => r is Err && has_parts(
                    r->Err_0,
                    message@,
                    Seq::empty(),
                    seq![log.frames()],
                    seq![e],
                    Seq::empty(),
                ),
            },
    {
        match self {
            Ok(x) => Ok(x),
            Err(e) => Err(e.stack_context(log, message)),
        }
    }

    fn stack_context_with<F: FnOnce(AttrMap) -> AttrMap>(self, log: &Log, message: &str, attrs: F) -> (r: Result<
        O,
        Error,
    >)
        ensures
            match self {
                Ok(x) => r == Ok::<O, Error>(x),
                Err(e) => r is Err && configures(attrs, r->Err_0.attrs()) && r->Err_0.message() == message@
                    && r->Err_0.contexts() == seq![log.frames()] && r->Err_0.causes() == seq![e]
                    && r->Err_0.incidental().len() == 0,
            },
    {
        match self {
            Ok(x) => Ok(x),
            Err(e) => Err(e.stack_context_with(log, message, attrs)),
        }
    }

    fn also<O2>(self, r: Result<O2, Error>) -> (out: Result<O, Error>)
        ensures
            match (self, r) {
                (Ok(x), Ok(_)) => out == Ok::<O, Error>(x),
                (Ok(_), Err(e2)) => out == Err::<O, Error>(e2),
                (Err(e), Ok(_)) => out == Err::<O, Error>(e),
                (Err(e), Err(e2)) => out is Err && has_parts(
                    out->Err_0,
                    e.message(),
                    e.attrs(),
                    e.contexts(),
                    e.causes(),
                    e.incidental().push(e2),
                ),
            },
    {
        match self {
            Ok(x) => match r {
                Ok(_) => Ok(x),
                Err(e2) => Err(e2),
            },
            Err(e) => match r {
                Ok(_) => Err(e),
                Err(e2) => Err(e.also(e2)),
            },
        }
    }

    fn log(self, log: &Log, level: Level, message: &str) -> (r: Option<RenderBranch>)
        ensures
            r is Some <==> (self is Err && log.emits(level)),
            r is Some ==> exists|c: Error|
                has_parts(c, message@, Seq::empty(), Seq::empty(), seq![self->Err_0], Seq::empty())
                    && #[trigger] logged_tree(*log, c, r.unwrap()),
    {
        match self {
            Ok(_) => None,
            Err(e) => {
                let c = e.context(message);
                let r = log.log_err(level, c);
                proof {
                    if r is Some {
                        assert(logged_tree(*log, c, r.unwrap()));
                    }
                }
                r
            },
        }
    }

    fn log_with<F: FnOnce(AttrMap) -> AttrMap>(self, log: &Log, level: Level, message: &str, attrs: F) -> (r: Option<
        RenderBranch,
    >)
        ensures
            r is Some <==> (self is Err && log.emits(level)),
            r is Some ==> exists|c: Error|
                configures(attrs, c.attrs()) && c.message() == message@ && c.contexts().len() == 0
                    && c.causes() == seq![self->Err_0] && c.incidental().len() == 0
                    && #[trigger] logged_tree(*log, c, r.unwrap()),
    {
        match self {
            Ok(_) => None,
            Err(e) => {
                let c = e.context_with(message, attrs);
                let r = log.log_err(level, c);
                proof {
                    if r is Some {
                        assert(logged_tree(*log, c, r.unwrap()));
                    }
                }
                r
            },
        }
    }
}

/// Whether `e` is the error that stands for a missing value: "No value", with
/// nothing else.
pub open spec fn no_value(e: Error) -> bool {
    has_parts(e, "No value"@, Seq::empty(), Seq::empty(), Seq::empty(), Seq::empty())
}

impl<O> ResultContext<O> for Option<O> {
    fn context(self, message: &str) -> (r: Result<O, Error>)
        ensures
            match self {
                Some(x) => r == Ok::<O, Error>(x),
                None => r is Err && has_parts(
                    r->Err_0,
                    message@,
                    Seq::empty(),
                    Seq::empty(),
                    Seq::empty(),
                    Seq::empty(),
                ),
            },
    {
        match self {
            Some(x) => Ok(x),
            None => Err(err(message)),
        }
    }

    fn context_with<F: FnOnce(AttrMap) -> AttrMap>(self, message: &str, attrs: F) -> (r: Result<O, Error>)
        ensures
            match self {
                Some(x) => r == Ok::<O, Error>(x),
                None => r is Err && configures(attrs, r->Err_0.attrs()) && r->Err_0.message() == message@
                    && r->Err_0.contexts().len() == 0 && r->Err_0.causes().len() == 0
                    && r->Err_0.incidental().len() == 0,
            },
    {
        match self {
            Some(x) => Ok(x),
            None => Err(crate::error::err_with(message, attrs)),
        }
    }

    fn stack_context(self, log: &Log, message: &str) -> (r: Result<O, Error>)
        ensures
            match self {
                Some(x) => r == Ok::<O, Error>(x),
                None => r is Err && has_parts(
                    r->Err_0,
                    message@,
                    Seq::empty(),
                    seq![log.frames()],
                    Seq::empty(),
                    Seq::empty(),
                ),
            },
    {
        match self {
            Some(x) => Ok(x),
            None => Err(log.err(message)),
        }
    }

    fn stack_context_with<F: FnOnce(AttrMap) -> AttrMap>(self, log: &Log, message: &str, attrs: F) -> (r: Result<
        O,
        Error,
    >)
        ensures
            match self {
                Some(x) => r == Ok::<O, Error>(x),
                None => r is Err && configures(attrs, r->Err_0.attrs()) && r->Err_0.message() == message@
                    && r->Err_0.contexts() == seq![log.frames()] && r->Err_0.causes().len() == 0
                    && r->Err_0.incidental().len() == 0,
            },
    {
        match self {
            Some(x) => Ok(x),
            None => Err(log.err_with(message, attrs)),
        }
    }

    fn also<O2>(self, r: Result<O2, Error>) -> (out: Result<O, Error>)
        ensures
            match (self, r) {
                (Some(x), Ok(_)) => out == Ok::<O, Error>(x),
                (Some(_), Err(e2)) => out == Err::<O, Error>(e2),
                (None, Ok(_)) => out is Err && no_value(out->Err_0),
                (None, Err(e2)) => out is Err && has_parts(
                    out->Err_0,
                    "No value"@,
                    Seq::empty(),
                    Seq::empty(),
                    Seq::empty(),
                    seq![e2],
                ),
            },
    {
        match self {
            Some(x) => match r {
                Ok(_) => Ok(x),
                Err(e2) => Err(e2),
            },
            None => match r {
                Ok(_) => Err(err("No value")),
                Err(e2) => {
                    let e = err("No value").also(e2);
                    proof {
                        assert(seq![e2] =~= Seq::<Error>::empty().push(e2));
                    }
                    Err(e)
                },
            },
        }
    }

    fn log(self, log: &Log, level: Level, message: &str) -> (r: Option<RenderBranch>)
        ensures
            r is Some <==> (self is None && log.emits(level)),
            r is Some ==> exists|c: Error|
                c.message() == message@ && c.attrs().len() == 0 && c.contexts().len() == 0
                    && c.causes().len() == 1 && no_value(c.causes()[0]) && c.incidental().len() == 0
                    && #[trigger] logged_tree(*log, c, r.unwrap()),
    {
        match self {
            Some(_) => None,
            None => {
                let n = err("No value");
                let c = n.context(message);
                let r = log.log_err(level, c);
                proof {
                    if r is Some {
                        assert(logged_tree(*log, c, r.unwrap()));
                    }
                }
                r
            },
        }
    }

    fn log_with<F: FnOnce(AttrMap) -> AttrMap>(self, log: &Log, level: Level, message: &str, attrs: F) -> (r: Option<
        RenderBranch,
    >)
        ensures
            r is Some <==> (self is None && log.emits(level)),
            r is Some ==> exists|c: Error|
                configures(attrs, c.attrs()) && c.message() == message@ && c.contexts().len() == 0
                    && c.causes().len() == 1 && no_value(c.causes()[0]) && c.incidental().len() == 0
                    && #[trigger] logged_tree(*log, c, r.unwrap()),
    {
        match self {
            Some(_) => None,
            None => {
                let n = err("No value");
                let c = n.context_with(message, attrs);
                let r = log.log_err(level, c);
                proof {
                    if r is Some {
                        assert(logged_tree(*log, c, r.unwrap()));
                    }
                }
                r
            },
        }
    }
}

} // verus!
