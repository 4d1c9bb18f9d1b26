use impact::binary::encoder;
use impact::message::{DecodeError, Message, Operation};
use impact::resolver::{Exchange, Progress, ResolveError, Resolver, TransportError};
use impact::resource::{Ipv4Address, RData, Resource, ResourceClass, ResourceType};

fn localhost_reply() -> Vec<u8> {
    vec![
        0u8, 0, 0x81, 0x80, 0, 1, 0, 1, 0, 0, 0, 0, // header
        9, b'l', b'o', b'c', b'a', b'l', b'h', b'o', b's', b't', 0, 0, 1, 0, 1, // question
        0xC0, 12, 0, 1, 0, 1, 0, 0, 0x02, 0x58, 0, 4, 127, 0, 0, 1, // answer
    ]
}

fn ask(progress: Progress) -> Exchange {
    match progress {
        Progress::Ask(exchange) => exchange,
        Progress::Done(result) => panic!("the resolution ended: {:?}", result),
    }
}

fn servers() -> Vec<Ipv4Address> {
    vec![Ipv4Address::new(192, 0, 2, 1), Ipv4Address::new(192, 0, 2, 2)]
}

#[test]
fn test_resolve_localhost() {
    let resolver = Resolver::new(vec![Ipv4Address::new(127, 0, 0, 53)]);
    let expected = Resource {
        name: "localhost".to_string(),
        rtype: ResourceType::A,
        rclass: ResourceClass::IN,
        ttl: 600,
        rdata: RData::A(Ipv4Address::new(127, 0, 0, 1)),
    };
    let exchange = ask(resolver.resolve("localhost".to_string(), ResourceType::A));
    match resolver.proceed(exchange, Ok(localhost_reply())) {
        Progress::Done(Ok(message)) => {
            assert_eq!(message.answer_record[0], expected);
        }
        other => {
            println!("Error {:?}", other);
            assert!(false);
        }
    };
}

#[test]
fn first_exchange_is_with_the_first_nameserver() {
    let resolver = Resolver::new(servers());
    let exchange = ask(resolver.resolve(String::from("google.com"), ResourceType::A));
    assert_eq!(exchange.attempt, 0);
    assert_eq!(exchange.server, Ipv4Address::new(192, 0, 2, 1));
    let query = Message::new(
        0,
        Operation::StandardQuery,
        true,
        vec![String::from("google.com")],
        ResourceType::A,
    );
    assert_eq!(exchange.packet, encoder::encode(&query).unwrap());
    assert_eq!(
        exchange.packet,
        vec![
            0, 0, 1, 0, 0, 1, 0, 0, 0, 0, 0, 0, 6, 103, 111, 111, 103, 108, 101, 3, 99, 111,
            109, 0, 0, 1, 0, 1
        ]
    );
}

#[test]
fn failed_exchange_falls_back_to_the_next_nameserver() {
    let resolver = Resolver::new(servers());
    for failure in [
        TransportError::Bind,
        TransportError::Send,
        TransportError::Receive,
        TransportError::Timeout,
    ]
    .into_iter()
    {
        let first = ask(resolver.resolve(String::from("localhost"), ResourceType::A));
        let packet = first.packet.clone();
        let second = ask(resolver.proceed(first, Err(failure)));
        assert_eq!(second.attempt, 1);
        assert_eq!(second.server, Ipv4Address::new(192, 0, 2, 2));
        assert_eq!(second.packet, packet);
        let done = resolver.proceed(second, Ok(localhost_reply()));
        assert_eq!(
            done,
            Progress::Done(Ok(Message::decode(&localhost_reply()).unwrap()))
        );
    }
}

#[test]
fn resolution_fails_when_every_nameserver_fails() {
    let resolver = Resolver::new(servers());
    let first = ask(resolver.resolve(String::from("localhost"), ResourceType::A));
    let second = ask(resolver.proceed(first, Err(TransportError::Send)));
    assert_eq!(
        resolver.proceed(second, Err(TransportError::Timeout)),
        Progress::Done(Err(ResolveError::ResolveFailed))
    );
}

#[test]
fn resolution_without_nameservers_fails_at_once() {
    let resolver = Resolver::new(vec![]);
    assert_eq!(
        resolver.resolve(String::from("localhost"), ResourceType::A),
        Progress::Done(Err(ResolveError::NoNameserversConfigured))
    );
}

#[test]
fn reply_that_does_not_decode_ends_the_resolution() {
    let resolver = Resolver::new(servers());
    let first = ask(resolver.resolve(String::from("localhost"), ResourceType::A));
    let mut reply = localhost_reply();
    reply.pop();
    assert_eq!(
        resolver.proceed(first, Ok(reply)),
        Progress::Done(Err(ResolveError::Decode(DecodeError::EndOfInput)))
    );
    let first = ask(resolver.resolve(String::from("localhost"), ResourceType::A));
    assert_eq!(
        resolver.proceed(first, Ok(vec![0, 0, 0x78, 0])),
        Progress::Done(Err(ResolveError::Decode(DecodeError::InvalidFormat)))
    );
}

#[test]
fn exchange_past_the_list_ends_the_resolution() {
    let resolver = Resolver::new(servers());
    let stray = Exchange {
        attempt: usize::MAX,
        server: Ipv4Address::new(0, 0, 0, 0),
        packet: vec![],
    };
    assert_eq!(
        resolver.proceed(stray, Err(TransportError::Receive)),
        Progress::Done(Err(ResolveError::ResolveFailed))
    );
}

#[test]
fn nameservers_are_read_from_a_configuration() {
    let content = "# Generated\n\
                   domain example.org\n\
                   nameserver 192.0.2.53\n\
                   nameserver 999.1.1.1\n\
                   search example.org\n\
                   nameserver 2001:db8::1\n\
                   \x20nameserver 10.0.0.1\n\
                   #nameserver 10.0.0.2\n\
                   nameserver  10.0.0.3\n\
                   nameserver 010.0.0.4\n\
                   nameserver 8.8.4.4 # trailing\n\
                   nameserver 1.2.3.4567\n\
                   nameserver 1.2.3.45 6\n";
    assert_eq!(
        Resolver::parse_resolv_conf(content),
        vec![
            Ipv4Address::new(192, 0, 2, 53),
            Ipv4Address::new(8, 8, 4, 4),
            Ipv4Address::new(1, 2, 3, 45),
        ]
    );
}

#[test]
fn configuration_without_nameservers_gives_none() {
    assert_eq!(Resolver::parse_resolv_conf(""), vec![]);
    assert_eq!(Resolver::parse_resolv_conf("search example.org\n"), vec![]);
    assert_eq!(Resolver::parse_resolv_conf("1.2.3.4"), vec![]);
}

#[test]
fn resolver_from_a_configuration_asks_its_nameservers_in_order() {
    let resolver = Resolver::from_reolv_conf("nameserver 10.0.0.2\nnameserver 10.0.0.1\n");
    assert_eq!(
        resolver.name_servers(),
        &vec![Ipv4Address::new(10, 0, 0, 2), Ipv4Address::new(10, 0, 0, 1)]
    );
    let first = ask(resolver.resolve(String::from("a"), ResourceType::NS));
    assert_eq!(first.server, Ipv4Address::new(10, 0, 0, 2));
    let second = ask(resolver.proceed(first, Err(TransportError::Timeout)));
    assert_eq!(second.server, Ipv4Address::new(10, 0, 0, 1));
}

#[test]
fn fields_that_are_no_address_are_passed_over() {
    let fields = vec![
        String::from("1.2.3.4"),
        String::from("1.2.3.400"),
        String::from("nameserver"),
        String::from("5.6.7.8"),
    ];
    assert_eq!(
        Resolver::nameservers_among(&fields),
        vec![Ipv4Address::new(1, 2, 3, 4), Ipv4Address::new(5, 6, 7, 8)]
    );
    assert_eq!(Resolver::nameservers_among(&vec![]), vec![]);
}
