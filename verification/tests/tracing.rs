use std::sync::Arc;
use std::sync::Mutex;

use idem::interpretation::Interpreter;
use idem::lexing::Lexer;
use idem::parsing::Parser;
use idem::tracing::SpanObserver;
use opentelemetry::global;
use opentelemetry::sdk::export::trace::SpanData;
use opentelemetry::sdk::trace::Span;
use opentelemetry::sdk::trace::SpanProcessor;
use opentelemetry::sdk::trace::TracerProvider;
use opentelemetry::trace::SpanId;
use opentelemetry::trace::TraceContextExt;
use opentelemetry::trace::TraceResult;
use opentelemetry::Context;

#[derive(Debug)]
struct Record {
    ended: Arc<Mutex<Vec<(String, SpanId, SpanId)>>>,
}

impl SpanProcessor for Record {
    fn on_start(&self, _span: &mut Span, _cx: &Context) {}

    fn on_end(&self, span: SpanData) {
        self.ended.lock().unwrap().push((
            span.name.to_string(),
            span.span_context.span_id(),
            span.parent_span_id,
        ));
    }

    fn force_flush(&self) -> TraceResult<()> {
        Ok(())
    }

    fn shutdown(&mut self) -> TraceResult<()> {
        Ok(())
    }
}

#[test]
fn a_span_is_opened_for_each_call_inside_the_span_of_the_enclosing_call() {
    let ended = Arc::new(Mutex::new(Vec::new()));
    let provider = TracerProvider::builder()
        .with_span_processor(Record { ended: ended.clone() })
        .build();
    global::set_tracer_provider(provider);

    let tokens = Lexer::new("a.id").tokenize("f(a){ a } main(){ print(f(add(1, 2))) }".chars());
    let mut parser = Parser::new(&tokens);
    let ast = parser.parse().unwrap();
    let mut interpreter = Interpreter::new();
    let mut observer = SpanObserver::new();
    interpreter.run_observed(&ast, &mut observer).unwrap();
    assert_eq!(interpreter.output, vec![3]);

    let spans = ended.lock().unwrap().clone();
    let names: Vec<&str> = spans.iter().map(|span| span.0.as_str()).collect();
    assert_eq!(names, vec!["add", "f", "print"]);
    let (add, f, print) = (&spans[0], &spans[1], &spans[2]);
    assert_eq!(print.2, SpanId::INVALID);
    assert_eq!(f.2, print.1);
    assert_eq!(add.2, f.1);
    assert_ne!(add.1, f.1);
    assert_ne!(f.1, print.1);
}

#[test]
fn the_spans_of_a_run_that_fails_are_closed() {
    let ended = Arc::new(Mutex::new(Vec::new()));
    let provider = TracerProvider::builder()
        .with_span_processor(Record { ended: ended.clone() })
        .build();
    global::set_tracer_provider(provider);

    let tokens = Lexer::new("a.id").tokenize("main(){ print(g(1)) }".chars());
    let mut parser = Parser::new(&tokens);
    let ast = parser.parse().unwrap();
    let mut interpreter = Interpreter::new();
    let mut observer = SpanObserver::new();
    assert!(interpreter.run_observed(&ast, &mut observer).is_err());

    let spans = ended.lock().unwrap().clone();
    let names: Vec<&str> = spans.iter().map(|span| span.0.as_str()).collect();
    assert_eq!(names, vec!["g", "print"]);
    assert_eq!(spans[0].2, spans[1].1);
    assert!(!Context::current().span().span_context().is_valid());
}
