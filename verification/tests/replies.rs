use lacabra_image_api::routes::catchers::{
    forbidden, internal_error, not_found, status_text, too_many_requests, unauthorized,
};
use lacabra_image_api::routes::index::index;
use lacabra_image_api::utils::response::{GenericResponse, GenericStringResponse};

#[test]
fn the_root_greets() {
    assert_eq!(index(), GenericResponse { status: "200", message: "Hello, world!" });
}

#[test]
fn failures_have_fixed_replies() {
    assert_eq!(unauthorized(), GenericResponse { status: "401", message: "Unauthorized" });
    assert_eq!(
        forbidden(),
        GenericResponse { status: "403", message: "You are forbidden from accessing this resource" }
    );
    assert_eq!(not_found(), GenericResponse { status: "404", message: "Not found" });
    assert_eq!(
        too_many_requests(),
        GenericResponse { status: "429", message: "You are being rate limited" }
    );
}

#[test]
fn other_failures_carry_their_code_and_reason() {
    assert_eq!(
        internal_error(500, "Internal Server Error"),
        GenericStringResponse {
            status: "500".to_string(),
            message: "Internal Server Error".to_string()
        }
    );
    assert_eq!(
        internal_error(418, "I'm a teapot"),
        GenericStringResponse { status: "418".to_string(), message: "I'm a teapot".to_string() }
    );
}

#[test]
fn status_codes_are_written_in_decimal() {
    for code in [0u16, 1, 9, 10, 99, 100, 404, 500, 1000, 9999, 10000, 65535] {
        assert_eq!(status_text(code), code.to_string());
    }
}
