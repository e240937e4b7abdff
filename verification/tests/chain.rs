use embedded_error_chain::marker::Unused;
use embedded_error_chain::{
    format_chained, CategoryIdentity, ChainError, DynError, Error, ErrorCategory,
    ErrorCategoryHandle, ErrorCode, ErrorCodeFormatter, ErrorCodeFormatterVal, ErrorData,
    FmtError, ResultChainError, TextSink,
};

#[derive(Copy, Clone, Debug, PartialEq, Eq)]
enum TestError1 {
    Err0,
    Err1,
}

impl CategoryIdentity for TestError1 {
    const ID: u16 = 1;
}

impl ErrorCategory for TestError1 {
    const NAME: &'static str = "ErrorCategory";
    const VARIANTS: &'static [(ErrorCode, &'static str)] = &[(0, "Err0"), (1, "Err1")];

    type L0 = Unused;
    type L1 = Unused;
    type L2 = Unused;
    type L3 = TestError3;
    type L4 = Unused;
    type L5 = Unused;
}

impl From<ErrorCode> for TestError1 {
    fn from(val: ErrorCode) -> Self {
        match val {
            0 => TestError1::Err0,
            1 => TestError1::Err1,
            _ => panic!("not a code of TestError1"),
        }
    }
}

impl Into<ErrorCode> for TestError1 {
    fn into(self) -> ErrorCode {
        match self {
            TestError1::Err0 => 0,
            TestError1::Err1 => 1,
        }
    }
}

#[derive(Copy, Clone, Debug, PartialEq, Eq)]
enum TestError2 {
    Err0,
    Err1,
}

impl CategoryIdentity for TestError2 {
    const ID: u16 = 2;
}

impl ErrorCategory for TestError2 {
    const NAME: &'static str = "ErrorCategory";
    const VARIANTS: &'static [(ErrorCode, &'static str)] = &[(0, "Err0"), (1, "Err1")];

    type L0 = TestError1;
    type L1 = Unused;
    type L2 = Unused;
    type L3 = Unused;
    type L4 = Unused;
    type L5 = Unused;
}

impl From<ErrorCode> for TestError2 {
    fn from(val: ErrorCode) -> Self {
        match val {
            0 => TestError2::Err0,
            1 => TestError2::Err1,
            _ => panic!("not a code of TestError2"),
        }
    }
}

impl Into<ErrorCode> for TestError2 {
    fn into(self) -> ErrorCode {
        match self {
            TestError2::Err0 => 0,
            TestError2::Err1 => 1,
        }
    }
}

#[derive(Copy, Clone, Debug, PartialEq, Eq)]
enum TestError3 {
    Err0,
    Err1,
}

impl CategoryIdentity for TestError3 {
    const ID: u16 = 3;
}

impl ErrorCategory for TestError3 {
    const NAME: &'static str = "ErrorCategory";
    const VARIANTS: &'static [(ErrorCode, &'static str)] = &[(3, "Err0"), (4, "Err1")];

    type L0 = TestError3;
    type L1 = TestError1;
    type L2 = TestError2;
    type L3 = Unused;
    type L4 = Unused;
    type L5 = Unused;
}

impl From<ErrorCode> for TestError3 {
    fn from(val: ErrorCode) -> Self {
        match val {
            3 => TestError3::Err0,
            4 => TestError3::Err1,
            _ => panic!("not a code of TestError3"),
        }
    }
}

impl Into<ErrorCode> for TestError3 {
    fn into(self) -> ErrorCode {
        match self {
            TestError3::Err0 => 3,
            TestError3::Err1 => 4,
        }
    }
}

fn categories() -> [ErrorCodeFormatter; 3] {
    [
        ErrorCodeFormatter::new::<TestError1>(),
        ErrorCodeFormatter::new::<TestError2>(),
        ErrorCodeFormatter::new::<TestError3>(),
    ]
}

#[test]
fn chain1() {
    let categories = categories();
    let err = Error::new(TestError1::Err0);
    let err = err.chain(TestError2::Err1);

    assert_eq!(err.code(), TestError2::Err1);
    assert_eq!(
        err.code_of_category::<TestError1>(&categories).unwrap(),
        TestError1::Err0
    );
    assert_eq!(err.chain_len(), 1);

    let mut iter = err.iter(&categories);
    assert_eq!(
        iter.next(),
        Some((
            TestError2::Err1.into(),
            ErrorCategoryHandle::new::<TestError2>()
        ))
    );
    assert_eq!(
        iter.next(),
        Some((
            TestError1::Err0.into(),
            ErrorCategoryHandle::new::<TestError1>()
        ))
    );
    assert_eq!(iter.next(), None);
}

#[test]
fn chain2() {
    let categories = categories();
    let err = Error::new(TestError2::Err1)
        .chain(TestError3::Err0)
        .chain(TestError3::Err1)
        .chain(TestError1::Err1)
        .chain(TestError2::Err0);

    let mut iter = err.iter(&categories);
    assert_eq!(
        iter.next(),
        Some((
            TestError2::Err0.into(),
            ErrorCategoryHandle::new::<TestError2>()
        ))
    );
    assert_eq!(
        iter.next(),
        Some((
            TestError1::Err1.into(),
            ErrorCategoryHandle::new::<TestError1>()
        ))
    );
    assert_eq!(
        iter.next(),
        Some((
            TestError3::Err1.into(),
            ErrorCategoryHandle::new::<TestError3>()
        ))
    );
    assert_eq!(
        iter.next(),
        Some((
            TestError3::Err0.into(),
            ErrorCategoryHandle::new::<TestError3>()
        ))
    );
    assert_eq!(
        iter.next(),
        Some((
            TestError2::Err1.into(),
            ErrorCategoryHandle::new::<TestError2>()
        ))
    );
    assert_eq!(iter.next(), None);
}

#[test]
fn chained_error_counts_its_causes() {
    let err = Error::new(TestError2::Err1);
    assert_eq!(err.chain_len(), 0);
    assert_eq!(err.chain_capacity(), 4);
    let err = err.chain(TestError3::Err0);
    assert_eq!(err.chain_len(), 1);
    let err = err.chain(TestError3::Err1);
    assert_eq!(err.chain_len(), 2);
    let err = err.chain(TestError1::Err1);
    assert_eq!(err.chain_len(), 3);
    let err = err.chain(TestError2::Err0);
    assert_eq!(err.chain_len(), 4);
    let err = err.chain(TestError3::Err0);
    assert_eq!(err.chain_len(), 4);
}

#[test]
fn fifth_chain_drops_the_oldest_cause() {
    let categories = categories();
    let err = Error::new(TestError2::Err1)
        .chain(TestError3::Err0)
        .chain(TestError3::Err1)
        .chain(TestError1::Err1)
        .chain(TestError2::Err1);
    assert!(err.caused_by(&categories, TestError2::Err1));
    assert!(err.caused_by(&categories, TestError3::Err0));

    let mut data: ErrorData = err.into();
    let evicted = data.push_front(TestError3::Err0.into(), 2);
    // The oldest code is Err1 of TestError2, which is link 2 of TestError3.
    assert_eq!(evicted, Some((1, 2)));

    let err = err.chain(TestError3::Err0);
    assert!(Error::<TestError3>::from_raw(data) == err);
    let mut iter = err.iter(&categories);
    assert_eq!(
        iter.next(),
        Some((3, ErrorCategoryHandle::new::<TestError3>()))
    );
    assert_eq!(
        iter.next(),
        Some((1, ErrorCategoryHandle::new::<TestError2>()))
    );
    assert_eq!(
        iter.next(),
        Some((1, ErrorCategoryHandle::new::<TestError1>()))
    );
    assert_eq!(
        iter.next(),
        Some((4, ErrorCategoryHandle::new::<TestError3>()))
    );
    assert_eq!(
        iter.next(),
        Some((3, ErrorCategoryHandle::new::<TestError3>()))
    );
    assert_eq!(iter.next(), None);
    assert_eq!(iter.next(), None);
}

#[test]
fn static_and_dynamic_chaining_give_the_same_record() {
    let typed = Error::new(TestError1::Err1).chain(TestError2::Err0);
    let erased = DynError::new(TestError1::Err1)
        .try_chain(TestError2::Err0)
        .ok()
        .unwrap();
    assert!(typed == erased);
    let typed_data: ErrorData = typed.into();
    let erased_data: ErrorData = erased.into();
    assert!(typed_data == erased_data);

    // Through a link that is not the first slot of the table.
    let typed = Error::new(TestError2::Err1).chain(TestError3::Err1);
    let erased = DynError::from(Error::new(TestError2::Err1))
        .try_chain(TestError3::Err1)
        .ok()
        .unwrap();
    assert!(typed == erased);
    assert_eq!(typed.into_data().first_formatter_index(), Some(2));
}

#[test]
fn chaining_a_bare_code_is_chaining_a_new_error() {
    let from_code = TestError1::Err1.chain(TestError2::Err0);
    let from_error = Error::new(TestError1::Err1).chain(TestError2::Err0);
    assert!(from_code == from_error);
    assert_eq!(from_code.chain_len(), 1);
    assert_eq!(from_code.code(), TestError2::Err0);
}

#[test]
fn unlinked_chain_hands_the_error_back() {
    let erased = DynError::new(TestError2::Err1);
    let res = erased.try_chain(TestError1::Err0);
    match res {
        Ok(_) => panic!("TestError1 does not link to TestError2"),
        Err(back) => {
            assert!(back == erased);
            assert_eq!(back.code(), 1);
            assert_eq!(back.chain_len(), 0);
            assert!(back.is::<TestError2>());
        }
    }

    let erased: DynError = Error::new(TestError1::Err0)
        .chain(TestError2::Err1)
        .into();
    match erased.try_chain(TestError1::Err1) {
        Ok(_) => panic!("TestError1 does not link to TestError2"),
        Err(back) => assert!(back == erased),
    }
}

#[test]
fn erased_error_knows_its_category() {
    let erased: DynError = TestError3::Err1.into();
    assert!(erased.is::<TestError3>());
    assert!(!erased.is::<TestError1>());
    assert_eq!(erased.code(), 4);
    assert_eq!(erased.chain_capacity(), 4);
    assert_eq!(
        erased.category_handle(),
        ErrorCategoryHandle::new::<TestError3>()
    );
    assert!(erased.formatter() == ErrorCodeFormatter::new::<TestError3>());
    assert_eq!(erased.category_handle().name(), "ErrorCategory");

    match erased.try_into::<TestError3>() {
        Ok(typed) => assert_eq!(typed.code(), TestError3::Err1),
        Err(_) => panic!("the error is of TestError3"),
    }
    match erased.try_into::<TestError2>() {
        Ok(_) => panic!("the error is not of TestError2"),
        Err(back) => assert!(back == erased),
    }

    let (data, formatter) = erased.into_raw_parts();
    assert!(DynError::from_raw_parts(data, formatter) == erased);
}

#[test]
fn handles_are_equal_for_the_same_category_only() {
    let one = ErrorCategoryHandle::new::<TestError1>();
    assert!(one == ErrorCategoryHandle::new::<TestError1>());
    assert!(one != ErrorCategoryHandle::new::<TestError2>());
    assert!(one.is_handle_of::<TestError1>());
    assert!(!one.is_handle_of::<TestError3>());
    assert_eq!(one.name(), "ErrorCategory");
}

#[test]
fn causes_are_found_by_code_and_by_category() {
    let categories = categories();
    let err = Error::new(TestError2::Err1)
        .chain(TestError3::Err0)
        .chain(TestError1::Err1);
    assert!(err.caused_by(&categories, TestError1::Err1));
    assert!(err.caused_by(&categories, TestError3::Err0));
    assert!(err.caused_by(&categories, TestError2::Err1));
    assert!(!err.caused_by(&categories, TestError2::Err0));
    assert!(!err.caused_by(&categories, TestError3::Err1));
    assert!(err.caused_by_code(&categories, ErrorCategoryHandle::new::<TestError3>(), 3));
    assert!(!err.caused_by_code(&categories, ErrorCategoryHandle::new::<TestError3>(), 1));

    assert_eq!(
        err.code_of_category::<TestError3>(&categories),
        Some(TestError3::Err0)
    );
    assert_eq!(
        err.code_of_category::<TestError1>(&categories),
        Some(TestError1::Err1)
    );
    assert_eq!(
        err.raw_code_of_category(&categories, ErrorCategoryHandle::new::<TestError2>()),
        Some(1)
    );

    let single = Error::new(TestError1::Err0);
    assert_eq!(single.code_of_category::<TestError2>(&categories), None);
    assert_eq!(
        single.code_of_category::<TestError1>(&categories),
        Some(TestError1::Err0)
    );

    let erased: DynError = err.into();
    assert!(erased.caused_by(&categories, TestError3::Err0));
    assert!(!erased.caused_by(&categories, TestError1::Err0));
    assert_eq!(
        erased.code_of_category::<TestError2>(&categories),
        Some(TestError2::Err1)
    );
    assert_eq!(
        erased.raw_code_of_category(&categories, ErrorCategoryHandle::new::<TestError1>()),
        Some(1)
    );
}

#[test]
fn newest_code_of_a_category_is_found_first() {
    let categories = categories();
    let err = Error::new(TestError3::Err0).chain(TestError3::Err1);
    assert_eq!(
        err.code_of_category::<TestError3>(&categories),
        Some(TestError3::Err1)
    );
}

#[test]
fn walk_ends_where_a_category_is_not_listed() {
    let known = [ErrorCodeFormatter::new::<TestError1>()];
    let err = Error::new(TestError2::Err1)
        .chain(TestError3::Err0)
        .chain(TestError1::Err1);
    let mut iter = err.iter(&known);
    assert_eq!(
        iter.next(),
        Some((1, ErrorCategoryHandle::new::<TestError1>()))
    );
    assert_eq!(iter.next(), None);
    assert!(!err.caused_by(&known, TestError3::Err0));
    assert_eq!(err.to_text(&known), "ErrorCategory(1): Err1");
}

#[test]
fn walk_ends_at_a_link_outside_the_table() {
    let categories = categories();
    let mut data = ErrorData::new(TestError1::Err0.into());
    // Link 6 is no slot of a link table.
    ErrorData::chain(&mut data, TestError2::Err1.into(), 6);
    let err = Error::<TestError2>::from_raw(data);
    assert_eq!(err.chain_len(), 1);
    let mut iter = err.iter(&categories);
    assert_eq!(
        iter.next(),
        Some((1, ErrorCategoryHandle::new::<TestError2>()))
    );
    assert_eq!(iter.next(), None);
}

#[test]
fn raw_error_holds_the_given_code() {
    let err = Error::<TestError3>::new_raw(4);
    assert_eq!(err.code(), TestError3::Err1);
    assert_eq!(err.chain_len(), 0);
    let err = Error::<TestError1>::from(TestError1::Err1);
    assert!(err == Error::<TestError1>::new_raw(1));
    assert!(err != Error::<TestError1>::new_raw(0));
}

#[test]
fn chain_err_chains_an_error_and_passes_a_value() {
    let failed: Result<u32, Error<TestError1>> = Err(Error::new(TestError1::Err0));
    match failed.chain_err(TestError2::Err1) {
        Ok(_) => panic!("an error stays an error"),
        Err(err) => {
            assert!(err == Error::new(TestError1::Err0).chain(TestError2::Err1));
        }
    }

    let fine: Result<u32, Error<TestError1>> = Ok(17);
    match fine.chain_err(TestError2::Err1) {
        Ok(value) => assert_eq!(value, 17),
        Err(_) => panic!("a value stays a value"),
    }

    let bare: Result<(), TestError1> = Err(TestError1::Err1);
    match bare.chain_err(TestError2::Err0) {
        Ok(_) => panic!("an error stays an error"),
        Err(err) => assert_eq!(err.chain_len(), 1),
    }

    let erased: Result<(), DynError> = Err(DynError::new(TestError1::Err1));
    match erased.chain_err(TestError2::Err0) {
        Ok(_) => panic!("an error stays an error"),
        Err(err) => assert!(err == Error::new(TestError1::Err1).chain(TestError2::Err0)),
    }
}

#[test]
fn error_text_has_one_line_per_code() {
    let categories = categories();
    let err = Error::new(TestError2::Err1);
    assert_eq!(err.to_text(&categories), "ErrorCategory(1): Err1");
    let err = err.chain(TestError3::Err0).chain(TestError1::Err1);
    assert_eq!(
        err.to_text(&categories),
        "ErrorCategory(1): Err1\n- ErrorCategory(3): Err0\n- ErrorCategory(1): Err1"
    );
    let erased: DynError = err.into();
    assert_eq!(erased.to_text(&categories), err.to_text(&categories));
}

#[test]
fn error_text_stops_where_the_sink_is_full() {
    let categories = categories();
    let err = Error::new(TestError2::Err1).chain(TestError3::Err0);
    let whole = "ErrorCategory(3): Err0\n- ErrorCategory(1): Err1";
    assert_eq!(whole.chars().count(), 47);

    let mut sink = TextSink::with_limit(47);
    assert_eq!(err.fmt(&categories, &mut sink), Ok(()));
    assert_eq!(sink.as_str(), whole);

    let mut sink = TextSink::with_limit(46);
    assert_eq!(err.fmt(&categories, &mut sink), Err(FmtError));
    assert_eq!(sink.as_str(), "ErrorCategory(3): Err0\n- ErrorCategory(1): ");

    let mut sink = TextSink::with_limit(23);
    assert_eq!(err.fmt(&categories, &mut sink), Err(FmtError));
    assert_eq!(sink.as_str(), "ErrorCategory(3): Err0");

    let mut sink = TextSink::with_limit(12);
    let erased: DynError = err.into();
    assert_eq!(erased.fmt(&categories, &mut sink), Err(FmtError));
    assert_eq!(sink.as_str(), "");

    let mut sink = TextSink::new();
    assert_eq!(sink.write_str("error: "), Ok(()));
    assert_eq!(erased.fmt(&categories, &mut sink), Ok(()));
    assert_eq!(
        sink.into_string(),
        "error: ErrorCategory(3): Err0\n- ErrorCategory(1): Err1"
    );
}

#[test]
fn formatter_renders_and_leads_on() {
    let categories = categories();
    let three = ErrorCodeFormatter::new::<TestError3>();

    let (handle, next) = three.format(&categories, 4, Some(1), None);
    assert_eq!(handle, ErrorCategoryHandle::new::<TestError3>());
    assert!(next == Ok(Some(ErrorCodeFormatterVal::new(ErrorCodeFormatter::new::<TestError1>()))));

    let mut sink = TextSink::new();
    let (handle, next) = format_chained::<TestError3>(&categories, 4, Some(2), Some(&mut sink));
    assert_eq!(handle, ErrorCategoryHandle::new::<TestError3>());
    assert!(next.ok().unwrap().unwrap().into() == ErrorCodeFormatter::new::<TestError2>());
    assert_eq!(sink.as_str(), "ErrorCategory(4): Err1");

    // No link asked for, a link to an unused slot, and a link outside the table.
    assert!(three.format(&categories, 3, None, None).1 == Ok(None));
    assert!(three.format(&categories, 3, Some(3), None).1 == Ok(None));
    assert!(three.format(&categories, 3, Some(6), None).1 == Ok(None));
    assert!(three.next(&categories, Some(0)).unwrap().into() == three);

    let mut sink = TextSink::with_limit(5);
    let (handle, next) = three.format(&categories, 3, Some(0), Some(&mut sink));
    assert_eq!(handle, ErrorCategoryHandle::new::<TestError3>());
    assert!(next == Err(FmtError));
}

#[test]
fn code_without_a_text_renders_without_one() {
    let three = ErrorCodeFormatter::new::<TestError3>();
    assert_eq!(three.variant_str(3), "Err0");
    assert_eq!(three.variant_str(0), "");
    let mut sink = TextSink::new();
    assert_eq!(three.write_line(0, &mut sink), Ok(()));
    assert_eq!(sink.as_str(), "ErrorCategory(0): ");
}

#[test]
fn codes_render_in_decimal() {
    let one = ErrorCodeFormatter::new::<TestError1>();
    for (code, text) in [
        (0u8, "ErrorCategory(0): Err0"),
        (1, "ErrorCategory(1): Err1"),
        (9, "ErrorCategory(9): "),
        (10, "ErrorCategory(10): "),
        (15, "ErrorCategory(15): "),
        (99, "ErrorCategory(99): "),
        (100, "ErrorCategory(100): "),
        (205, "ErrorCategory(205): "),
        (255, "ErrorCategory(255): "),
    ] {
        let mut sink = TextSink::new();
        assert_eq!(one.write_line(code, &mut sink), Ok(()));
        assert_eq!(sink.as_str(), text);
    }
}

#[test]
fn typed_error_is_as_large_as_its_record() {
    assert_eq!(std::mem::size_of::<ErrorData>(), 4);
    assert_eq!(std::mem::size_of::<Error<TestError1>>(), 4);
    assert_eq!(std::mem::size_of::<Error<TestError3>>(), 4);
}
