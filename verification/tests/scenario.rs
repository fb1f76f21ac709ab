use js_runtime::create::{new_bool, new_func, new_num, new_str, new_undefined};
use js_runtime::format::log;
use js_runtime::heap::Heap;
use js_runtime::invoke::call;
use js_runtime::operators::{and, div, eq, gte, is_truthy, lt, lte, neq, or, to_fixed, typeof_js};
use js_runtime::value::{JsValue, JsVar};

fn num(x: f64) -> u64 {
    x.to_bits()
}

fn plus(a: u64, b: u64) -> u64 {
    (f64::from_bits(a) + f64::from_bits(b)).to_bits()
}

fn times(a: u64, b: u64) -> u64 {
    (f64::from_bits(a) * f64::from_bits(b)).to_bits()
}

fn over(a: u64, b: u64) -> u64 {
    (f64::from_bits(a) / f64::from_bits(b)).to_bits()
}

fn text(a: u64) -> String {
    format!("{}", f64::from_bits(a))
}

fn fixed(a: u64, digits: usize) -> String {
    format!("{:.*}", digits, f64::from_bits(a))
}

fn argument(heap: &mut Heap, args: &[JsVar], i: usize) -> JsVar {
    match args.get(i) {
        Some(var) => *var,
        None => new_undefined(heap),
    }
}

fn is_not_a_number(heap: &mut Heap, var: JsVar) -> JsVar {
    let kind = typeof_js(heap, var);
    let number = new_str(heap, "number");
    let differs = neq(heap, kind, number);
    new_bool(heap, differs)
}

/// The body mass index of a weight and a height, or a message where they
/// are not positive numbers.
fn body_mass_index(mut heap: Heap, _id: u64, args: Vec<JsVar>) -> (Heap, JsVar) {
    let weight = argument(&mut heap, &args, 0);
    let height = argument(&mut heap, &args, 1);
    let zero = new_num(&mut heap, num(0.0));
    let a = is_not_a_number(&mut heap, weight);
    let b = is_not_a_number(&mut heap, height);
    let either = or(&heap, a, b);
    let c = new_bool(&mut heap, either);
    let low_weight = lte(&heap, weight, zero);
    let d = new_bool(&mut heap, low_weight);
    let so_far = or(&heap, c, d);
    let e = new_bool(&mut heap, so_far);
    let low_height = lte(&heap, height, zero);
    let f = new_bool(&mut heap, low_height);
    let refused = or(&heap, e, f);
    let g = new_bool(&mut heap, refused);
    if is_truthy(&heap, g) {
        let r = new_str(&mut heap, "Erro: Peso e altura devem ser números positivos.");
        return (heap, r);
    }
    let squared = js_runtime::operators::mul(&mut heap, height, height, &times);
    let index = div(&mut heap, weight, squared, &over);
    (heap, index)
}

fn say(heap: &mut Heap, label: &str, value: JsVar, unit: &str) {
    let label = new_str(heap, label);
    let unit = new_str(heap, unit);
    let left = js_runtime::operators::add(heap, label, value, &plus, &text);
    let line = js_runtime::operators::add(heap, left, unit, &plus, &text);
    assert!(log(heap, &[line], &text));
}

fn run(weight: f64, height: f64) -> Vec<String> {
    let mut heap = Heap::new();
    let function = new_func(&mut heap, 0);
    let weight = new_num(&mut heap, num(weight));
    let height = new_num(&mut heap, num(height));
    let result = call(&mut heap, function, vec![weight, height], &body_mass_index);
    say(&mut heap, "Peso: ", weight, " kg");
    say(&mut heap, "Altura: ", height, " m");
    let kind = typeof_js(&mut heap, result);
    let number = new_str(&mut heap, "number");
    if eq(&heap, kind, number) {
        let two = new_num(&mut heap, num(2.0));
        let rounded = to_fixed(&mut heap, result, two, &fixed);
        say(&mut heap, "Seu IMC é: ", rounded, "");
        let low = new_num(&mut heap, num(18.5));
        let high = new_num(&mut heap, num(24.9));
        let class = if lt(&heap, result, low) {
            "Classificação: Abaixo do peso."
        } else {
            let x = gte(&heap, result, low);
            let y = lte(&heap, result, high);
            let x = new_bool(&mut heap, x);
            let y = new_bool(&mut heap, y);
            if and(&heap, x, y) {
                "Classificação: Peso normal."
            } else {
                "Classificação: Sobrepeso ou obesidade."
            }
        };
        let class = new_str(&mut heap, class);
        assert!(log(&mut heap, &[class], &text));
    } else {
        assert!(log(&mut heap, &[result], &text));
    }
    heap.take_output()
}

#[test]
fn a_weight_of_75_and_a_height_of_1_75_is_normal_weight() {
    assert_eq!(
        run(75.0, 1.75),
        vec![
            "Peso: 75 kg".to_string(),
            "Altura: 1.75 m".to_string(),
            "Seu IMC é: 24.49".to_string(),
            "Classificação: Peso normal.".to_string(),
        ]
    );
}

#[test]
fn the_index_of_75_and_1_75_is_computed_exactly() {
    let mut heap = Heap::new();
    let function = new_func(&mut heap, 0);
    let weight = new_num(&mut heap, num(75.0));
    let height = new_num(&mut heap, num(1.75));
    let squared = js_runtime::operators::mul(&mut heap, height, height, &times);
    let result = call(&mut heap, function, vec![weight, height], &body_mass_index);
    match (heap.value(squared), heap.value(result)) {
        (JsValue::Number(s), JsValue::Number(r)) => {
            assert_eq!(f64::from_bits(*s), 3.0625);
            assert_eq!(f64::from_bits(*r), 24.489795918367346);
        }
        other => panic!("not numbers: {:?}", other),
    }
}

#[test]
fn the_other_classes_are_reached_too() {
    assert_eq!(run(50.0, 1.80)[3], "Classificação: Abaixo do peso.");
    assert_eq!(run(100.0, 1.70)[3], "Classificação: Sobrepeso ou obesidade.");
}

#[test]
fn a_weight_that_is_not_positive_is_refused() {
    assert_eq!(
        run(0.0, 1.75),
        vec![
            "Peso: 0 kg".to_string(),
            "Altura: 1.75 m".to_string(),
            "Erro: Peso e altura devem ser números positivos.".to_string(),
        ]
    );
    assert_eq!(run(75.0, -1.0)[2], "Erro: Peso e altura devem ser números positivos.");
}
