//! Tracing of calls with OpenTelemetry: an observer that opens a span for each call that
//! the interpreter evaluates.
//!
//! The spans go to the tracer of the global provider. Nothing is known here of what a
//! provider does with them; the functions of OpenTelemetry are called through wrappers
//! that promise nothing of their results.

use opentelemetry::global::BoxedSpan;
use opentelemetry::global::BoxedTracer;
use opentelemetry::trace::TraceContextExt;
use opentelemetry::trace::Tracer;
use opentelemetry::Context;
use opentelemetry::ContextGuard;
use vstd::prelude::*;

use crate::interpretation::CallObserver;

verus! {

/// The context of OpenTelemetry: an opaque value.
#[verifier::external_type_specification]
#[verifier::external_body]
pub struct ExContext(opentelemetry::Context);

/// The guard of OpenTelemetry that restores the previous context when it is dropped: an
/// opaque value.
#[verifier::external_type_specification]
#[verifier::external_body]
pub struct ExContextGuard(opentelemetry::ContextGuard);

/// The tracer that OpenTelemetry's global provider hands out: an opaque value.
#[verifier::external_type_specification]
#[verifier::external_body]
pub struct ExBoxedTracer(opentelemetry::global::BoxedTracer);

/// The span that such a tracer starts: an opaque value.
#[verifier::external_type_specification]
#[verifier::external_body]
pub struct ExBoxedSpan(opentelemetry::global::BoxedSpan);

/// Calls `opentelemetry::global::tracer`, which hands out a tracer of the provider that is
/// installed at the time. Nothing is claimed of the tracer.
#[verifier::external_body]
fn global_tracer(name: &'static str) -> BoxedTracer {
    opentelemetry::global::tracer(name)
}

/// Calls `opentelemetry::Context::current`, which copies the context of the current
/// thread. Nothing is claimed of the context.
#[verifier::external_body]
fn current_context() -> Context {
    Context::current()
}

/// Calls `Tracer::start_with_context` on the tracer, which starts a span called `name`
/// whose parent is the span of `parent`. Nothing is claimed of the span.
#[verifier::external_body]
fn start_span(tracer: &BoxedTracer, name: &str, parent: &Context) -> BoxedSpan {
    tracer.start_with_context(name.to_owned(), parent)
}

/// Calls `Context::current_with_span`, which copies the context of the current thread and
/// puts the span in the copy. Nothing is claimed of the context.
#[verifier::external_body]
fn context_with_span(span: BoxedSpan) -> Context {
    Context::current_with_span(span)
}

/// Calls `Context::attach`, which makes the context that of the current thread until the
/// guard it returns is dropped. Nothing is claimed of the guard.
#[verifier::external_body]
fn attach(context: Context) -> ContextGuard {
    context.attach()
}

/// An observer that wraps the evaluation of each call in a span named after the function,
/// inside the span of the call that encloses it.
pub struct SpanObserver {
    open: Vec<ContextGuard>,
}

impl SpanObserver {
    /// The number of spans that are open: those of the calls that began and have not ended.
    pub closed spec fn open_spans(&self) -> nat {
        self.open@.len()
    }

    /// An observer with no span open.
    pub fn new() -> (observer: Self)
        ensures
            observer.open_spans() == 0,
    {
        SpanObserver { open: Vec::new() }
    }
}

impl CallObserver for SpanObserver {
    /// Opens a span for the call and makes it the current one.
    fn enter(&mut self, name: &str)
        ensures
            final(self).open_spans() == old(self).open_spans() + 1,
    {
        let tracer = global_tracer("");
        let parent = current_context();
        let span = start_span(&tracer, name, &parent);
        self.open.push(attach(context_with_span(span)));
    }

    /// Closes the span that was opened last, and makes the one before it the current one.
    fn leave(&mut self, name: &str)
        ensures
            final(self).open_spans() == if old(self).open_spans() == 0 {
                0
            } else {
                old(self).open_spans() - 1
            },
    {
        self.open.pop();
    }
}

} // verus!
