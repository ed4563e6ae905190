use cert_decoder::der;
use cert_decoder::der::Tlv;
use cert_decoder::err::DecodeError;
use cert_decoder::pem;
use cert_decoder::pipeline::{decode_certificate, execute, FileProcessor};
use cert_decoder::render::render_certificate;
use cert_decoder::x509::parse_certificate;

#[derive(Default)]
struct FakeProcessor {
    is_file: bool,
    file_str: String,
}

impl FileProcessor for FakeProcessor {
    fn is_file(&self, _: &str) -> bool {
        self.is_file
    }
    fn read_to_string(&self, _: &str) -> Result<String, String> {
        Ok(self.file_str.clone())
    }
}

const GOOD: &str = "-----BEGIN CERTIFICATE-----\nMIG2MIGdoAMCAQICAxorPDANBgkqhkiG9w0BAQsFADAVMRMwEQYDVQQDEwpFeGFt\ncGxlIENBMB4XDTIzMDEwMTAwMDAwMFoXDTI2MDEwMTAwMDAwMFowFTETMBEGA1UE\nAxMKZ29vZ2xlLmNvbTAiMA0GCSqGSIb3DQEBAQUAAxEAAQIDBAUGBwgJCgsMDQ4P\nEKMQMA4wDAYDVR0TAQH/BAIwADANBgkqhkiG9w0BAQsFAAMFAAkIBwY=\n-----END CERTIFICATE-----\n";

const V1: &str = "-----BEGIN CERTIFICATE-----\nMIGfMIGGAgMaKzwwDQYJKoZIhvcNAQELBQAwFTETMBEGA1UEAxMKRXhhbXBsZSBD\nQTAeFw0yMzAxMDEwMDAwMDBaFw0yNjAxMDEwMDAwMDBaMBUxEzARBgNVBAMTCmdv\nb2dsZS5jb20wIjANBgkqhkiG9w0BAQEFAAMRAAECAwQFBgcICQoLDA0ODxAwDQYJ\nKoZIhvcNAQELBQADBQAJCAcG\n-----END CERTIFICATE-----\n";

const V1_WITH_EXTENSIONS: &str = "-----BEGIN CERTIFICATE-----\nMIGxMIGYAgMaKzwwDQYJKoZIhvcNAQELBQAwFTETMBEGA1UEAxMKRXhhbXBsZSBD\nQTAeFw0yMzAxMDEwMDAwMDBaFw0yNjAxMDEwMDAwMDBaMBUxEzARBgNVBAMTCmdv\nb2dsZS5jb20wIjANBgkqhkiG9w0BAQEFAAMRAAECAwQFBgcICQoLDA0ODxCjEDAO\nMAwGA1UdEwEB/wQCMAAwDQYJKoZIhvcNAQELBQADBQAJCAcG\n-----END CERTIFICATE-----\n";

const PADDED_SERIAL: &str = "-----BEGIN CERTIFICATE-----\nMIG1MIGcoAMCAQICAgABMA0GCSqGSIb3DQEBCwUAMBUxEzARBgNVBAMTCkV4YW1w\nbGUgQ0EwHhcNMjMwMTAxMDAwMDAwWhcNMjYwMTAxMDAwMDAwWjAVMRMwEQYDVQQD\nEwpnb29nbGUuY29tMCIwDQYJKoZIhvcNAQEBBQADEQABAgMEBQYHCAkKCwwNDg8Q\noxAwDjAMBgNVHRMBAf8EAjAAMA0GCSqGSIb3DQEBCwUAAwUACQgHBg==\n-----END CERTIFICATE-----\n";

const UTF8_SUBJECT: &str = "-----BEGIN CERTIFICATE-----\nMIGzMIGaoAMCAQICAxorPDANBgkqhkiG9w0BAQsFADAVMRMwEQYDVQQDEwpFeGFt\ncGxlIENBMB4XDTIzMDEwMTAwMDAwMFoXDTI2MDEwMTAwMDAwMFowEjEQMA4GA1UE\nBwwHWsO8cmljaDAiMA0GCSqGSIb3DQEBAQUAAxEAAQIDBAUGBwgJCgsMDQ4PEKMQ\nMA4wDAYDVR0TAQH/BAIwADANBgkqhkiG9w0BAQsFAAMFAAkIBwY=\n-----END CERTIFICATE-----\n";

const BMP_SUBJECT: &str = "-----BEGIN CERTIFICATE-----\nMIGwMIGXoAMCAQICAxorPDANBgkqhkiG9w0BAQsFADAVMRMwEQYDVQQDEwpFeGFt\ncGxlIENBMB4XDTIzMDEwMTAwMDAwMFoXDTI2MDEwMTAwMDAwMFowDzENMAsGA1UE\nAx4EAGEAYjAiMA0GCSqGSIb3DQEBAQUAAxEAAQIDBAUGBwgJCgsMDQ4PEKMQMA4w\nDAYDVR0TAQH/BAIwADANBgkqhkiG9w0BAQsFAAMFAAkIBwY=\n-----END CERTIFICATE-----\n";

const GENERALIZED_TIME: &str = "-----BEGIN CERTIFICATE-----\nMIG1MIGcoAMCAQICAX8wDQYJKoZIhvcNAQELBQAwFTETMBEGA1UEAxMKRXhhbXBs\nZSBDQTAiGA8yMDIzMDEwMTAwMDAwMFoYDzIwNTYwMTAxMDAwMDAwWjAVMRMwEQYD\nVQQDEwpnb29nbGUuY29tMCIwDQYJKoZIhvcNAQEBBQADEQABAgMEBQYHCAkKCwwN\nDg8Qow0wCzAJBgNVHQ4EAt6tMA0GCSqGSIb3DQEBCwUAAwUACQgHBg==\n-----END CERTIFICATE-----\n";

const TRUNCATED: &str = "-----BEGIN CERTIFICATE-----\nMIG2MIGdoAMCAQICAxorPDANBgkqhkiG9w0BAQsFADAVMRMwEQYDVQQDEwpFeGFt\ncGxlIENBMB4XDTIzMDEwMTAwMDAwMFoXDTI2MDEwMTAwMDAwMFowFTETMBE=\n-----END CERTIFICATE-----\n";

const GARBAGE_DER: &str = "-----BEGIN CERTIFICATE-----\nAQIDBA==\n-----END CERTIFICATE-----\n";

#[test]
fn should_error_if_not_given_a_single_argument() {
    let args = Vec::new();
    let validator = FakeProcessor::default();
    let result = execute(validator, args);
    assert!(result.is_err());
    assert_eq!(
        result.err().unwrap().message(),
        format!(
            "{}{}",
            "Error: did not receive a single argument, ",
            "please invoke cert-decoder as follows: ./cert-decoder /path/to/cert."
        )
    );
}

#[test]
fn should_error_if_argument_is_not_a_regular_file() {
    let args = vec!["not-a-regular-file".to_owned()];
    let validator = FakeProcessor::default();
    let result = execute(validator, args);
    assert!(result.is_err());
    assert_eq!(
        result.err().unwrap().message(),
        "Error: path given is not a regular file, please update to point to a certificate."
    );
}

#[test]
fn should_error_if_given_argument_is_not_a_pem_encoded_certificate() {
    let args = vec!["Cargo.toml".to_owned()];
    let validator = FakeProcessor {
        is_file: true,
        ..FakeProcessor::default()
    };
    let result = execute(validator, args);
    assert!(result.is_err())
}

#[test]
fn should_error_if_argument_is_not_a_valid_certificate() {
    let args = vec!["doesnt-really-matter".to_owned()];
    let processor = FakeProcessor {
        is_file: true,
        file_str: GARBAGE_DER.to_owned(),
    };
    let result = execute(processor, args);
    assert!(result.is_err());
}

#[test]
fn should_succeed() {
    let args = vec!["doesnt-really-matter".to_owned()];
    let validator = FakeProcessor {
        is_file: true,
        file_str: GOOD.to_owned(),
    };
    let result = execute(validator, args);
    println!("{:#?}", result);
    assert!(result.is_ok());
}

#[test]
fn good_certificate_fields_appear_in_output() {
    let cert = decode_certificate(&GOOD.as_bytes().to_vec()).unwrap();
    assert_eq!(cert.tbs_certificate.version, 3);
    assert_eq!(cert.tbs_certificate.serial, vec![0x1a, 0x2b, 0x3c]);
    let text = render_certificate(&cert);
    assert!(text.contains("google.com"));
    assert!(text.contains("Example CA"));
    assert!(text.contains("1a:2b:3c"));
    assert!(text.contains("2023-01-01 00:00:00Z"));
    assert!(text.contains("2026-01-01 00:00:00Z"));
    assert!(text.contains("2.5.4.3"));
    assert!(text.contains("1.2.840.113549.1.1.11"));
    assert!(text.contains("2.5.29.19 critical"));
    assert!(text.contains("01:02:03:04"));
}

#[test]
fn truncated_payload_reports_truncated_input() {
    let r = decode_certificate(&TRUNCATED.as_bytes().to_vec());
    assert_eq!(r.err().unwrap(), DecodeError::TruncatedInput);
}

#[test]
fn declared_length_beyond_buffer_reports_truncated_input() {
    // an outer SEQUENCE declaring five value bytes with only one present
    let r = parse_certificate(&vec![0x30u8, 0x05, 0x00]);
    assert_eq!(r.err().unwrap(), DecodeError::TruncatedInput);
}

#[test]
fn nested_declared_length_beyond_parent_reports_truncated_input() {
    // outer SEQUENCE of three bytes; inner SEQUENCE claims four
    let r = parse_certificate(&vec![0x30u8, 0x03, 0x30, 0x04, 0x00]);
    assert_eq!(r.err().unwrap(), DecodeError::TruncatedInput);
}

#[test]
fn non_pem_text_reports_malformed_pem() {
    let text = "[package]\nname = \"something\"\n";
    let r = decode_certificate(&text.as_bytes().to_vec());
    assert_eq!(r.err().unwrap(), DecodeError::MalformedPem);
}

#[test]
fn mismatched_labels_report_malformed_pem() {
    let text = "-----BEGIN CERTIFICATE-----\nAQIDBA==\n-----END PUBLIC KEY-----\n";
    let r = decode_certificate(&text.as_bytes().to_vec());
    assert_eq!(r.err().unwrap(), DecodeError::MalformedPem);
}

#[test]
fn invalid_base64_reports_malformed_pem() {
    let text = "-----BEGIN CERTIFICATE-----\nA?IDBA==\n-----END CERTIFICATE-----\n";
    let r = decode_certificate(&text.as_bytes().to_vec());
    assert_eq!(r.err().unwrap(), DecodeError::MalformedPem);
}

#[test]
fn garbage_der_reports_invalid_structure() {
    let r = decode_certificate(&GARBAGE_DER.as_bytes().to_vec());
    assert_eq!(r.err().unwrap(), DecodeError::InvalidStructure);
}

#[test]
fn pem_decode_recovers_exact_bytes() {
    let text = "-----BEGIN DATA-----\nAQID\n-----END DATA-----\n";
    let block = pem::decode(&text.as_bytes().to_vec()).unwrap();
    assert_eq!(block.label, b"DATA".to_vec());
    assert_eq!(block.der, vec![1u8, 2, 3]);
}

#[test]
fn pem_decode_joins_wrapped_lines() {
    let text = "junk before\n-----BEGIN DATA-----\nAQ\nID\n-----END DATA-----\ntrailing\n";
    let block = pem::decode(&text.as_bytes().to_vec()).unwrap();
    assert_eq!(block.der, vec![1u8, 2, 3]);
}

#[test]
fn pem_decode_rejects_nonzero_padding_bits() {
    // "AQE=" ends a two-byte group whose trailing bits are not zero
    let text = "-----BEGIN DATA-----\nAQH=\n-----END DATA-----\n";
    let r = pem::decode(&text.as_bytes().to_vec());
    assert!(r.is_err());
}

#[test]
fn non_minimal_integer_reports_invalid_encoding() {
    let r = decode_certificate(&PADDED_SERIAL.as_bytes().to_vec());
    assert_eq!(r.err().unwrap(), DecodeError::InvalidEncoding);
}

#[test]
fn v1_certificate_defaults_to_version_one_without_extensions() {
    let cert = decode_certificate(&V1.as_bytes().to_vec()).unwrap();
    assert_eq!(cert.tbs_certificate.version, 1);
    assert!(cert.tbs_certificate.extensions.is_empty());
}

#[test]
fn v1_certificate_with_extensions_reports_invalid_structure() {
    let r = decode_certificate(&V1_WITH_EXTENSIONS.as_bytes().to_vec());
    assert_eq!(r.err().unwrap(), DecodeError::InvalidStructure);
}

#[test]
fn utc_year_49_maps_to_2049() {
    let data = b"490101000000Z".to_vec();
    let node = Tlv { tag: 0x17, constructed: false, start: 0, len: 13 };
    let t = der::read_time(&data, &node).unwrap();
    assert_eq!(t.year, 2049);
}

#[test]
fn utc_year_50_maps_to_1950() {
    let data = b"500101000000Z".to_vec();
    let node = Tlv { tag: 0x17, constructed: false, start: 0, len: 13 };
    let t = der::read_time(&data, &node).unwrap();
    assert_eq!(t.year, 1950);
}

#[test]
fn utf8_attribute_value_is_decoded() {
    let cert = decode_certificate(&UTF8_SUBJECT.as_bytes().to_vec()).unwrap();
    let text = render_certificate(&cert);
    assert!(text.contains("Z\u{fc}rich"));
}

#[test]
fn bmp_string_attribute_reports_unsupported_encoding() {
    let r = decode_certificate(&BMP_SUBJECT.as_bytes().to_vec());
    assert_eq!(r.err().unwrap(), DecodeError::UnsupportedEncoding);
}

#[test]
fn generalized_time_years_are_read_as_given() {
    let cert = decode_certificate(&GENERALIZED_TIME.as_bytes().to_vec()).unwrap();
    assert_eq!(cert.tbs_certificate.validity.not_before.year, 2023);
    assert_eq!(cert.tbs_certificate.validity.not_after.year, 2056);
    assert!(!cert.tbs_certificate.validity.not_before.utc);
}

#[test]
fn extension_without_boolean_defaults_to_non_critical() {
    let cert = decode_certificate(&GENERALIZED_TIME.as_bytes().to_vec()).unwrap();
    assert_eq!(cert.tbs_certificate.extensions.len(), 1);
    assert!(!cert.tbs_certificate.extensions[0].critical);
    assert_eq!(cert.tbs_certificate.extensions[0].value, vec![0xde, 0xad]);
}

#[test]
fn crlf_line_endings_are_accepted() {
    let text = GOOD.replace("\n", "\r\n");
    let cert = decode_certificate(&text.as_bytes().to_vec()).unwrap();
    assert_eq!(cert.tbs_certificate.version, 3);
    assert_eq!(cert.tbs_certificate.serial, vec![0x1a, 0x2b, 0x3c]);
}

#[test]
fn trailing_blanks_on_armor_lines_are_accepted() {
    let text = GOOD.replace("-----\n", "-----  \n");
    let cert = decode_certificate(&text.as_bytes().to_vec()).unwrap();
    assert_eq!(cert.tbs_certificate.version, 3);
}

#[test]
fn century_split_years_reach_the_rendered_output() {
    let text = "-----BEGIN CERTIFICATE-----\nMIG2MIGdoAMCAQICAxorPDANBgkqhkiG9w0BAQsFADAVMRMwEQYDVQQDEwpFeGFt\ncGxlIENBMB4XDTQ5MDEwMTAwMDAwMFoXDTUwMDEwMTAwMDAwMFowFTETMBEGA1UE\nAxMKZ29vZ2xlLmNvbTAiMA0GCSqGSIb3DQEBAQUAAxEAAQIDBAUGBwgJCgsMDQ4P\nEKMQMA4wDAYDVR0TAQH/BAIwADANBgkqhkiG9w0BAQsFAAMFAAkIBwY=\n-----END CERTIFICATE-----\n";
    let cert = decode_certificate(&text.as_bytes().to_vec()).unwrap();
    assert_eq!(cert.tbs_certificate.validity.not_before.year, 2049);
    assert_eq!(cert.tbs_certificate.validity.not_after.year, 1950);
    let rendered = render_certificate(&cert);
    assert!(rendered.contains("Not Before: 2049-01-01 00:00:00Z"));
    assert!(rendered.contains("Not After: 1950-01-01 00:00:00Z"));
}
