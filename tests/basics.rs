use learning_rust::arith::{ArithmeticOperations, OperationId};
use learning_rust::employees::{Employee, Employees};
use learning_rust::greetings::DefaultGreetingsServer;
use learning_rust::linked_list::LinkedList;
use learning_rust::parsing::parse;
use learning_rust::sums::{checked_sum_of, divide, sequential_sum_of, sum_of};

fn prepare(count: u32) -> Vec<u64> {
    let mut elements: Vec<u64> = Vec::with_capacity(500000);
    (1..count + 1).for_each(|e| {
        elements.push(u64::from(e));
    });
    elements
}

#[test]
fn test_successful_parse() {
    let inputs = vec!["231", "123", "34534", "909"];
    let result = parse(inputs);
    let parsed = result.unwrap();

    let expected: Vec<u64> = vec![231, 123, 34534, 909];
    assert_eq!(expected, parsed);
}

#[test]
fn test_failed_parse() {
    let inputs = vec!["231", "123", "hello", "909"];
    let result = parse(inputs);
    let is_err = result.is_err();

    assert_eq!(is_err, true);
}

#[test]
fn parse_accepts_a_plus_sign_and_refuses_overflow() {
    assert_eq!(vec![7u64, 0], parse(vec!["+7", "0"]).unwrap());
    assert_eq!(vec![u64::MAX], parse(vec!["18446744073709551615"]).unwrap());
    assert!(parse(vec!["18446744073709551616"]).is_err());
    assert!(parse(vec![""]).is_err());
    assert!(parse(vec!["+"]).is_err());
    assert!(parse(vec!["-1"]).is_err());
    assert!(parse(vec![" 1"]).is_err());
    assert_eq!(Vec::<u64>::new(), parse(vec![]).unwrap());
}

#[test]
fn test_execute_addition() {
    let mut operation = ArithmeticOperations::new();
    operation.add(OperationId::Addition, |a, b| a + b);
    let result = operation.execute(OperationId::Addition, 4, 90);
    assert_eq!(94, result.unwrap());
}

#[test]
fn test_execute_multiplication() {
    let mut operation = ArithmeticOperations::new();
    operation.add(OperationId::Multiplication, |a, b| a * b);
    let result = operation.execute(OperationId::Multiplication, 10, 90);
    assert_eq!(900, result.unwrap());
}

#[test]
fn execute_of_an_unregistered_operation_is_none() {
    let mut operation = ArithmeticOperations::new();
    operation.add(OperationId::Addition, |a: u32, b: u32| a + b);
    assert_eq!(None, operation.execute(OperationId::Multiplication, 10, 90));
}

#[test]
fn sequential_sum_test_sequential_sum() {
    let elements = prepare(500000);
    let result = sequential_sum_of(elements);
    assert_eq!(125_000_250_000, result);
}

#[test]
fn sum_of_small_and_empty_inputs() {
    assert_eq!(0, sum_of(vec![]));
    assert_eq!(6, sum_of(vec![1, 2, 3]));
    assert_eq!(u64::MAX, sum_of(vec![u64::MAX - 1, 1]));
}

#[test]
fn divide_cuts_into_chunks_with_a_short_last_one() {
    let input: Vec<u64> = vec![1, 2, 3, 4, 5, 6, 7];
    let chunks = divide(&input, 3);
    assert_eq!(vec![vec![1, 2, 3], vec![4, 5, 6], vec![7]], chunks);
    assert_eq!(vec![vec![1u64, 2], vec![3, 4]], divide(&vec![1, 2, 3, 4], 2));
    assert_eq!(Vec::<Vec<u64>>::new(), divide(&vec![], 10));
    let total: u64 = divide(&prepare(1000), 10).into_iter().map(sum_of).sum();
    assert_eq!(500500, total);
}

#[test]
fn test_add_and_ensure_a_key_is_present() {
    let mut list = LinkedList::new();
    list.append(10);
    list.append(30);
    list.append(20);

    let has = list.has(10);
    assert!(has);
}

#[test]
fn test_add_and_check_for_a_missing_key() {
    let mut list = LinkedList::new();
    list.append(10);
    list.append(30);
    list.append(20);

    let has = list.has(2);
    assert_eq!(false, has);
}

#[test]
fn test_add_and_count_for_single_key() {
    let mut list = LinkedList::new();
    list.append(10);

    let count = list.count();
    assert_eq!(1, count);
}

#[test]
fn test_add_and_count_for_keys() {
    let mut list = LinkedList::new();
    list.append(10);
    list.append(30);
    list.append(20);
    list.append(90);
    list.append(80);

    let count = list.count();
    assert_eq!(5, count);
}

#[test]
fn an_empty_list_counts_zero_and_holds_only_the_sentinel() {
    let list = LinkedList::new();
    assert_eq!(0, list.count());
    assert!(list.has(-1));
    assert!(!list.has(0));
}

#[test]
fn lifetime_test_find_employees_by_existing_id_1() {
    let mut employees = Employees::new_employees();
    employees.add(Employee { name: "A", id: 1 });

    let found = employees.find_by(1);
    assert_eq!(1, found.unwrap().id);
    assert_eq!("A", found.unwrap().name);
}

#[test]
fn lifetime_test_find_employees_by_existing_id_2() {
    let mut employees = Employees::new_employees();
    employees.add(Employee { name: "A", id: 1 });
    employees.add(Employee { name: "B", id: 2 });

    let found = employees.find_by(2);
    assert_eq!(2, found.unwrap().id);
    assert_eq!("B", found.unwrap().name);
}

#[test]
fn lifetime_test_find_employees_by_a_non_existing_id() {
    let mut employees = Employees::new_employees();
    employees.add(Employee { name: "A", id: 1 });

    let found = employees.find_by(20);
    assert_eq!(true, found.is_none())
}

#[test]
fn find_by_returns_the_first_with_the_id() {
    let mut employees = Employees::new_employees();
    employees.add(Employee { name: "A", id: 3 });
    employees.add(Employee { name: "B", id: 3 });
    assert_eq!("A", employees.find_by(3).unwrap().name);
}

#[test]
fn greeting_names_the_caller() {
    let server = DefaultGreetingsServer::default();
    assert_eq!("Hello Learning Rust!", server.say_hello("Learning Rust"));
    assert_eq!("Hello !", server.say_hello(""));
}

#[test]
fn checked_sum_refuses_overflow() {
    assert_eq!(Some(6), checked_sum_of(&vec![1, 2, 3]));
    assert_eq!(Some(0), checked_sum_of(&vec![]));
    assert_eq!(Some(u64::MAX), checked_sum_of(&vec![u64::MAX - 1, 1]));
    assert_eq!(None, checked_sum_of(&vec![u64::MAX, 1]));
    assert_eq!(Some(125_000_250_000), checked_sum_of(&prepare(500000)));
}

#[test]
fn sum_of_the_first_half_million() {
    let elements = prepare(500000);
    let result = sum_of(elements);
    assert_eq!(125_000_250_000, result);
}
