use std::cell::RefCell;

use evented_tcp::{each_addr, Error, OsError, OsErrorKind, ResolutionFault};

fn refused(code: i32) -> Error {
    Error::Connection(OsError { kind: OsErrorKind::ConnectionRefused, code })
}

#[test]
fn first_success_is_returned_and_later_candidates_are_not_tried() {
    let asked: RefCell<Vec<u16>> = RefCell::new(Vec::new());
    let made = each_addr(Ok(vec![10u16, 20, 30, 40]), |port: &u16| {
        asked.borrow_mut().push(*port);
        if *port >= 20 {
            Ok(*port + 1)
        } else {
            Err(refused(i32::from(*port)))
        }
    });
    assert_eq!(made, Ok(21));
    assert_eq!(*asked.borrow(), vec![10, 20]);
}

#[test]
fn candidates_are_tried_in_resolution_order() {
    let asked: RefCell<Vec<u16>> = RefCell::new(Vec::new());
    let made: Result<u16, Error> = each_addr(Ok(vec![7u16, 3, 9, 1]), |port: &u16| {
        asked.borrow_mut().push(*port);
        Err(refused(i32::from(*port)))
    });
    assert_eq!(*asked.borrow(), vec![7, 3, 9, 1]);
    assert_eq!(made, Err(refused(1)));
}

#[test]
fn all_failed_returns_the_last_error_not_the_first() {
    let made: Result<(), Error> = each_addr(Ok(vec![1i32, 2, 3]), |n: &i32| {
        if *n == 2 {
            Err(Error::WouldBlock)
        } else {
            Err(refused(*n))
        }
    });
    assert_eq!(made, Err(refused(3)));
}

#[test]
fn a_single_candidate_is_asked_once() {
    let calls = RefCell::new(0u32);
    let made = each_addr(Ok(vec!["only"]), |name: &&str| {
        *calls.borrow_mut() += 1;
        Ok::<usize, Error>(name.len())
    });
    assert_eq!(made, Ok(4));
    assert_eq!(*calls.borrow(), 1);
}

#[test]
fn success_on_the_last_candidate_is_a_success() {
    let made = each_addr(Ok(vec![1u8, 2, 3]), |n: &u8| {
        if *n == 3 {
            Ok(*n)
        } else {
            Err(refused(i32::from(*n)))
        }
    });
    assert_eq!(made, Ok(3));
}

#[test]
fn no_candidate_is_a_resolution_error_and_nothing_is_called() {
    let calls = RefCell::new(0u32);
    let made: Result<u8, Error> = each_addr(Ok(Vec::<u8>::new()), |n: &u8| {
        *calls.borrow_mut() += 1;
        Ok(*n)
    });
    assert_eq!(made, Err(Error::Resolution(ResolutionFault::NoAddresses)));
    assert_eq!(*calls.borrow(), 0);
}

#[test]
fn failed_resolution_is_a_resolution_error_and_nothing_is_called() {
    let calls = RefCell::new(0u32);
    let lookup = OsError { kind: OsErrorKind::Other, code: -2 };
    let made: Result<u8, Error> = each_addr(Err(lookup), |n: &u8| {
        *calls.borrow_mut() += 1;
        Ok(*n)
    });
    assert_eq!(made, Err(Error::Resolution(ResolutionFault::Failed(lookup))));
    assert_eq!(*calls.borrow(), 0);
}

#[test]
fn would_block_is_kept_and_other_errors_become_connection_errors() {
    let again = OsError { kind: OsErrorKind::WouldBlock, code: 11 };
    let busy = OsError { kind: OsErrorKind::AddrInUse, code: 98 };
    assert_eq!(Error::from_os(again), Error::WouldBlock);
    assert_eq!(Error::from_os(busy), Error::Connection(busy));
    assert!(Error::from_os(again).is_would_block());
    assert!(!Error::from_os(busy).is_would_block());
    assert!(!Error::Resolution(ResolutionFault::NoAddresses).is_would_block());
}
