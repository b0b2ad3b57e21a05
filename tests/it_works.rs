use rweblet::HttpResponseType;

#[test]
fn it_works() {
    assert_eq!(2 + 2, 4);
}

#[test]
fn status_codes() {
    assert_eq!(HttpResponseType::Success.code(), 200);
    assert_eq!(HttpResponseType::NotFound.code(), 404);
    assert_eq!(HttpResponseType::InternalError.code(), 500);
    assert_eq!(HttpResponseType::NoStatus.code(), 0);
}
