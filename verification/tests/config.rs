use geoindex::config::{
    setup_index, Backend, BackendDefinition, ConfigError, Fault, ProxyConfig, UrlFacts,
};
use geoindex::{GeometryError, Point, Polygon};

fn rect(x0: i32, y0: i32, x1: i32, y1: i32) -> Polygon<i32> {
    Polygon::new(vec![
        Point::new(x0, y0),
        Point::new(x0, y1),
        Point::new(x1, y1),
        Point::new(x1, y0),
    ])
}

fn backend(text: &str) -> Backend {
    Backend::parse(text).unwrap()
}

fn fault_of(verdict: Result<(), ConfigError>) -> Option<Fault> {
    match verdict {
        Ok(()) => None,
        Err(error) => Some(error.fault),
    }
}

#[test]
fn backend_parses_urls_only() {
    assert!(Backend::parse("http://example.com/").is_some());
    assert!(Backend::parse("not a url").is_none());
    assert!(Backend::parse("").is_none());
}

#[test]
fn backend_takes_urls_of_up_to_two_hundred_bytes() {
    let lead = "http://example.com/";
    let longest = format!("{}{}", lead, "a".repeat(200 - lead.len()));
    let too_long = format!("{}{}", lead, "a".repeat(201 - lead.len()));

    assert_eq!(longest.len(), 200);
    assert_eq!(Backend::parse(&longest).unwrap().base_url(), longest);
    assert!(Backend::parse(&too_long).is_none());
}

#[test]
fn backend_is_refused_where_the_url_grows_too_long_as_written() {
    // Each of these letters takes two bytes as given and six as `url`
    // writes it.
    let grows = format!("http://example.com/{}", "\u{e9}".repeat(40));
    let stays = format!("http://example.com/{}", "\u{e9}".repeat(30));

    assert!(grows.len() <= 200);
    assert!(Backend::parse(&grows).is_none());
    assert_eq!(
        Backend::parse(&stays).unwrap().base_url(),
        format!("http://example.com/{}", "%C3%A9".repeat(30))
    );
}

#[test]
fn backend_with_a_host_beyond_ascii_is_written_in_punycode() {
    assert_eq!(backend("http://b\u{fc}cher.example/").base_url(), "http://xn--bcher-kva.example/");
}

#[test]
fn message_quotes_the_url_of_a_definition_without_areas() {
    let error = ConfigError { fault: Fault::NoAreas, url: "http://a.example/?q=\\".to_owned() };

    assert_eq!(
        error.message(),
        "Backend definition has to have at least one area declared: \
         Backend { base_url: \"http://a.example/?q=\\\\\" }"
    );
}

#[test]
fn backend_keeps_the_url_as_serialized() {
    assert_eq!(backend("http://example.com").base_url(), "http://example.com/");
    assert_eq!(backend("HTTPS://Example.COM/a?b=c").base_url(), "https://example.com/a?b=c");
}

#[test]
fn http_and_https_backends_with_a_host_are_valid() {
    assert_eq!(fault_of(backend("http://example.com/").validate()), None);
    assert_eq!(fault_of(backend("https://example.com:8443/base").validate()), None);
    assert_eq!(fault_of(backend("http://127.0.0.1:9000").validate()), None);
}

#[test]
fn other_schemes_are_refused() {
    let verdict = backend("ftp://example.com/").validate();

    match verdict {
        Err(error) => {
            assert_eq!(error.fault, Fault::UnsupportedScheme);
            assert_eq!(error.url, "ftp://example.com/");
            assert_eq!(
                error.message(),
                "Backend URL scheme has to be http(s), ftp://example.com/"
            );
        }
        Ok(()) => panic!("an ftp backend was accepted"),
    }
}

#[test]
fn urls_that_cannot_be_a_base_are_refused() {
    assert_eq!(
        fault_of(backend("mailto:someone@example.com").validate()),
        Some(Fault::UnsupportedScheme)
    );
    assert_eq!(
        fault_of(backend("data:text/plain,hello").validate()),
        Some(Fault::UnsupportedScheme)
    );
}

#[test]
fn backend_without_a_host_is_refused() {
    let hostless = Backend::new(UrlFacts {
        text: "http:/nowhere".to_owned(),
        scheme: "http".to_owned(),
        has_host: false,
        cannot_be_a_base: false,
    });

    match hostless.validate() {
        Err(error) => {
            assert_eq!(error.fault, Fault::MissingHost);
            assert_eq!(
                error.message(),
                "Backend URL needs to have a host specified, http:/nowhere"
            );
        }
        Ok(()) => panic!("a backend without a host was accepted"),
    }
}

#[test]
fn scheme_is_judged_before_host() {
    let neither = Backend::new(UrlFacts {
        text: "unix:/run/socket".to_owned(),
        scheme: "unix".to_owned(),
        has_host: false,
        cannot_be_a_base: false,
    });

    assert_eq!(fault_of(neither.validate()), Some(Fault::UnsupportedScheme));
    assert_eq!(
        fault_of(backend("unix:/run/socket").validate()),
        Some(Fault::UnsupportedScheme)
    );
}

#[test]
fn definition_needs_an_area() {
    let empty = BackendDefinition { areas: Vec::new(), backend: backend("http://example.com/") };

    match empty.validate() {
        Err(error) => {
            assert_eq!(error.fault, Fault::NoAreas);
            assert_eq!(
                error.message(),
                "Backend definition has to have at least one area declared: \
                 Backend { base_url: \"http://example.com/\" }"
            );
        }
        Ok(()) => panic!("a definition without areas was accepted"),
    }
}

#[test]
fn definition_without_an_area_is_judged_before_its_backend() {
    let empty = BackendDefinition { areas: Vec::new(), backend: backend("ftp://example.com/") };

    assert_eq!(fault_of(empty.validate()), Some(Fault::NoAreas));
}

#[test]
fn definition_with_areas_is_judged_by_its_backend() {
    let good = BackendDefinition {
        areas: vec![rect(0, 0, 10, 10)],
        backend: backend("http://example.com/"),
    };
    let bad = BackendDefinition {
        areas: vec![rect(0, 0, 10, 10)],
        backend: backend("ftp://example.com/"),
    };

    assert_eq!(fault_of(good.validate()), None);
    assert_eq!(fault_of(bad.validate()), Some(Fault::UnsupportedScheme));
}

#[test]
fn configuration_reports_its_first_fault() {
    let config = ProxyConfig {
        backends: vec![
            BackendDefinition {
                areas: vec![rect(0, 0, 10, 10)],
                backend: backend("http://one.example/"),
            },
            BackendDefinition { areas: Vec::new(), backend: backend("http://two.example/") },
            BackendDefinition {
                areas: vec![rect(0, 0, 10, 10)],
                backend: backend("ftp://three.example/"),
            },
        ],
        default_backend: backend("http://default.example/"),
    };

    match config.validate() {
        Err(error) => {
            assert_eq!(error.fault, Fault::NoAreas);
            assert_eq!(error.url, "http://two.example/");
        }
        Ok(()) => panic!("a configuration with faults was accepted"),
    }
}

#[test]
fn configuration_without_faults_is_valid() {
    let config = ProxyConfig {
        backends: vec![BackendDefinition {
            areas: vec![rect(0, 0, 10, 10)],
            backend: backend("http://one.example/"),
        }],
        default_backend: backend("http://default.example/"),
    };
    assert!(config.validate().is_ok());

    let none = ProxyConfig { backends: Vec::new(), default_backend: backend("http://d.example/") };
    assert!(none.validate().is_ok());
}

#[test]
fn default_backend_is_judged_like_any_other() {
    let config = ProxyConfig {
        backends: vec![BackendDefinition {
            areas: vec![rect(0, 0, 10, 10)],
            backend: backend("http://one.example/"),
        }],
        default_backend: backend("ftp://default.example/"),
    };

    match config.validate() {
        Err(error) => {
            assert_eq!(error.fault, Fault::UnsupportedScheme);
            assert_eq!(error.url, "ftp://default.example/");
        }
        Ok(()) => panic!("a configuration with a malformed default backend was accepted"),
    }
}

#[test]
fn default_backend_alone_is_judged() {
    let config = ProxyConfig {
        backends: Vec::new(),
        default_backend: backend("mailto:someone@example.com"),
    };
    assert_eq!(fault_of(config.validate()), Some(Fault::UnsupportedScheme));

    let hostless = ProxyConfig {
        backends: Vec::new(),
        default_backend: Backend::new(UrlFacts {
            text: "http:/nowhere".to_owned(),
            scheme: "http".to_owned(),
            has_host: false,
            cannot_be_a_base: false,
        }),
    };
    match hostless.validate() {
        Err(error) => {
            assert_eq!(error.fault, Fault::MissingHost);
            assert_eq!(error.url, "http:/nowhere");
        }
        Ok(()) => panic!("a default backend without a host was accepted"),
    }
}

#[test]
fn faulty_definition_is_reported_before_faulty_default_backend() {
    let config = ProxyConfig {
        backends: vec![
            BackendDefinition {
                areas: vec![rect(0, 0, 10, 10)],
                backend: backend("http://one.example/"),
            },
            BackendDefinition { areas: Vec::new(), backend: backend("http://two.example/") },
        ],
        default_backend: backend("ftp://default.example/"),
    };

    match config.validate() {
        Err(error) => {
            assert_eq!(error.fault, Fault::NoAreas);
            assert_eq!(error.url, "http://two.example/");
        }
        Ok(()) => panic!("a configuration with faults was accepted"),
    }
}

#[test]
fn request_keeps_its_path_and_query_on_the_backend() {
    let target = backend("http://example.com/");

    assert_eq!(
        target.map_url("/a/b", Some("q=1&r=2")),
        Some("http://example.com/a/b?q=1&r=2".to_owned())
    );
    assert_eq!(target.map_url("/a/b", None), Some("http://example.com/a/b".to_owned()));
    assert_eq!(target.map_url("/", None), Some("http://example.com/".to_owned()));
}

#[test]
fn path_and_query_of_the_base_url_are_replaced() {
    let target = backend("https://example.com:8443/base/path?old=1");

    assert_eq!(
        target.map_url("/new", Some("fresh=2")),
        Some("https://example.com:8443/new?fresh=2".to_owned())
    );
    assert_eq!(target.map_url("/new", None), Some("https://example.com:8443/new".to_owned()));
}

#[test]
fn mapped_path_is_written_as_a_url_writes_it() {
    let target = backend("http://example.com/");

    assert_eq!(
        target.map_url("/with space/../kept", Some("a b")),
        Some("http://example.com/kept?a%20b".to_owned())
    );
}

#[test]
fn backend_with_an_overlong_base_url_maps_nothing() {
    let text = format!("http://example.com/{}", "a".repeat(200));
    let long = Backend::new(UrlFacts {
        text,
        scheme: "http".to_owned(),
        has_host: true,
        cannot_be_a_base: false,
    });

    assert_eq!(long.map_url("/a", None), None);
}

#[test]
fn backend_that_is_no_url_maps_nothing() {
    let broken = Backend::new(UrlFacts {
        text: "not a url".to_owned(),
        scheme: "http".to_owned(),
        has_host: true,
        cannot_be_a_base: false,
    });

    assert_eq!(broken.map_url("/a", None), None);
}

#[test]
fn index_routes_to_the_backend_of_the_area() {
    let config = ProxyConfig {
        backends: vec![
            BackendDefinition {
                areas: vec![rect(0, 0, 10, 10), rect(10, 0, 20, 10)],
                backend: backend("http://south.example/"),
            },
            BackendDefinition {
                areas: vec![rect(0, 10, 10, 20), rect(10, 10, 20, 20)],
                backend: backend("http://north.example/"),
            },
        ],
        default_backend: backend("http://default.example/"),
    };

    let index = setup_index(config).unwrap();

    assert_eq!(index.lookup_coords(Some(&Point::new(5, 5))).base_url(), "http://south.example/");
    assert_eq!(index.lookup_coords(Some(&Point::new(15, 15))).base_url(), "http://north.example/");
    assert_eq!(index.lookup_coords(Some(&Point::new(45, 5))).base_url(), "http://default.example/");
    assert_eq!(index.lookup_coords(None).base_url(), "http://default.example/");
}

#[test]
fn index_is_not_built_from_an_area_without_vertices() {
    let config = ProxyConfig {
        backends: vec![
            BackendDefinition {
                areas: vec![rect(0, 0, 10, 10)],
                backend: backend("http://one.example/"),
            },
            BackendDefinition {
                areas: vec![Polygon::new(Vec::new())],
                backend: backend("http://two.example/"),
            },
        ],
        default_backend: backend("http://default.example/"),
    };

    match setup_index(config) {
        Err(error) => assert_eq!(error, GeometryError::DegenerateGeometry { definition: 1 }),
        Ok(_) => panic!("an index was built from an area without vertices"),
    }
}
