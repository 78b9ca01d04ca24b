use jqsh::value::{Value, Object};
use jqsh::rational::Rational;
use jqsh::context::Context;
use jqsh::filter::{Filter, run_filter, recover_parse};
use jqsh::channel::{Channel, Receiver};

const FUEL: u64 = 64;

fn lit_num(n: i64) -> Filter {
    Filter::Literal(Value::Number(Rational::from_int(n)))
}

fn drain(r: &mut Receiver) -> Vec<String> {
    let mut out = Vec::new();
    while let Some(v) = r.chan.recv() {
        out.push(v.to_display_string());
    }
    out
}

#[test]
fn identity_on_empty_stream_yields_nothing_and_same_context() {
    let ctx = Context::new().with_binding(&"marker".to_string(), &Filter::Identity);
    let source = Receiver::empty(ctx);
    let mut staged = source.filter(&Filter::Identity, FUEL);
    assert!(staged.chan.recv().is_none());
    let out_ctx = staged.chan.await_context().expect("context must settle");
    assert!(out_ctx.lookup(&"marker".to_string()).is_some());
    assert!(out_ctx.lookup(&"absent".to_string()).is_none());
}

#[test]
fn defined_filter_doubles_a_number() {
    let double = Filter::Times(
        Box::new(Filter::Identity),
        Box::new(lit_num(2)),
    );
    let ctx = Context::new().with_binding(&"double".to_string(), &double);
    let expr = Filter::Pipe(
        Box::new(lit_num(3)),
        Box::new(Filter::Call("double".to_string())),
    );
    let source = Receiver::empty(ctx);
    let mut staged = source.filter(&expr, FUEL);
    assert_eq!(drain(&mut staged), vec!["6"]);
}

#[test]
fn comma_emits_values_in_order() {
    let expr = Filter::Comma(
        Box::new(lit_num(1)),
        Box::new(Filter::Comma(Box::new(lit_num(2)), Box::new(lit_num(3)))),
    );
    let source = Receiver::empty(Context::new());
    let mut staged = source.filter(&expr, FUEL);
    assert_eq!(drain(&mut staged), vec!["1", "2", "3"]);
}

#[test]
fn exceptions_pass_through_untouched() {
    let raise = Filter::Literal(Value::Exception("x".to_string(), Object::new()));
    let expr = Filter::Pipe(Box::new(raise), Box::new(Filter::Identity));
    let source = Receiver::empty(Context::new());
    let mut staged = source.filter(&expr, FUEL);
    assert_eq!(drain(&mut staged), vec!["raise \"x\""]);
}

#[test]
fn unknown_name_and_exhausted_recursion_yield_exceptions() {
    let source = Receiver::empty(Context::new());
    let mut staged = source.filter(&Filter::Call("nope".to_string()), FUEL);
    assert_eq!(drain(&mut staged), vec!["raise \"undefined\""]);

    let looping = Filter::Call("loop_it".to_string());
    let ctx = Context::new().with_binding(&"loop_it".to_string(), &looping);
    let mut staged = Receiver::empty(ctx).filter(&looping, 8);
    assert_eq!(drain(&mut staged), vec!["raise \"recursion\""]);
}

#[test]
fn type_error_in_multiplication_is_an_exception_value() {
    let expr = Filter::Times(
        Box::new(Filter::Literal(Value::Null)),
        Box::new(lit_num(2)),
    );
    let mut staged = Receiver::empty(Context::new()).filter(&expr, FUEL);
    assert_eq!(drain(&mut staged), vec!["raise \"type\""]);
}

#[test]
fn def_exports_its_binding_to_the_next_stage() {
    let expr = Filter::Def(
        "twice".to_string(),
        Box::new(Filter::Times(Box::new(Filter::Identity), Box::new(lit_num(2)))),
        Box::new(Filter::Empty),
    );
    let staged = Receiver::empty(Context::new()).filter(&expr, FUEL);
    let ctx = staged.chan.await_context().expect("context must settle").duplicate();

    let next = Filter::Pipe(
        Box::new(lit_num(5)),
        Box::new(Filter::Call("twice".to_string())),
    );
    let mut staged = Receiver::empty(ctx).filter(&next, FUEL);
    assert_eq!(drain(&mut staged), vec!["10"]);
}

#[test]
fn stream_ordering_is_emission_order() {
    let mut c = Channel::new();
    assert!(c.send(Value::Number(Rational::from_int(1))));
    assert!(c.send(Value::Number(Rational::from_int(2))));
    assert!(c.send(Value::Number(Rational::from_int(3))));
    c.close();
    let mut seen = Vec::new();
    while let Some(v) = c.recv() {
        seen.push(v.to_display_string());
    }
    assert_eq!(seen, vec!["1", "2", "3"]);
}

#[test]
fn context_settles_independently_of_draining() {
    let mut c = Channel::new();
    assert!(c.send(Value::Null));
    assert!(c.send(Value::Boolean(true)));
    c.settle(Context::new());
    assert!(c.await_context().is_some());
    assert!(c.recv().is_some());
    assert!(c.await_context().is_some());
}

#[test]
fn cancellation_stops_the_producer() {
    let mut c = Channel::new();
    assert!(c.send(Value::Null));
    c.cancel();
    assert!(!c.send(Value::Boolean(true)));
    assert!(c.recv().is_some());
    assert!(c.recv().is_none());
}

#[test]
fn parse_failure_recovers_to_the_empty_filter() {
    let f = recover_parse(Err("unexpected token".to_string()));
    let ctx = Context::new().with_binding(&"keep".to_string(), &Filter::Identity);
    let (outs, ctx2) = run_filter(&f, &ctx, &Vec::new(), FUEL);
    assert!(outs.is_empty());
    assert!(ctx2.lookup(&"keep".to_string()).is_some());

    let again = recover_parse(Ok(lit_num(4)));
    let (outs, _ctx3) = run_filter(&again, &ctx2, &Vec::new(), FUEL);
    assert_eq!(outs.len(), 1);
    assert_eq!(outs[0].to_display_string(), "4");
}

#[test]
fn dispatch_writes_stream_and_settles_context() {
    let callable = jqsh::util::Labeled::new(
        "emit_pair".to_string(),
        Filter::Comma(Box::new(lit_num(7)), Box::new(lit_num(8))),
    );
    assert_eq!(callable.label(), "emit_pair");
    let input = Receiver::empty(Context::new());
    let mut output = Channel::new();
    jqsh::channel::dispatch(&callable, &input, &mut output, FUEL);
    assert!(output.await_context().is_some());
    let mut seen = Vec::new();
    while let Some(v) = output.recv() {
        seen.push(v.to_display_string());
    }
    assert_eq!(seen, vec!["7", "8"]);
}

#[test]
fn labeled_wraps_payload_without_affecting_it() {
    let l = jqsh::util::Labeled::new("name".to_string(), 42u32);
    assert_eq!(*l.value(), 42);
    assert_eq!(l.label(), "name");
    let u = jqsh::util::Labeled::unlabeled(7u32);
    assert_eq!(*u.value(), 7);
    assert_eq!(u.label(), "");
}
