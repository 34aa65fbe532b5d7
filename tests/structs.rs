use rediserde::{Deserializer, Error, Serializer};

#[derive(Debug, PartialEq, Eq)]
enum Gender {
    Male,
    Female,
}

#[derive(Debug, PartialEq, Eq)]
enum Job {
    Unemployed,
    Employed(String),
    Owner { company: String, net_worth: i64 },
}

#[derive(Debug, PartialEq, Eq)]
enum DateOfBirth {
    Unknown,
    Known(u8, u8, u16),
}

#[derive(Debug, PartialEq)]
struct Person {
    name: String,
    age: u32,
    gender: Gender,
    job: Job,
    date_of_birth: DateOfBirth,
    weight: Option<f64>,
}

fn encode_person(s: &mut Serializer, p: &Person) {
    s.serialize_struct(6);
    s.serialize_str("name");
    s.serialize_str(&p.name);
    s.serialize_str("age");
    s.serialize_u32(p.age);
    s.serialize_str("gender");
    match p.gender {
        Gender::Male => s.serialize_unit_variant("Male"),
        Gender::Female => s.serialize_unit_variant("Female"),
    }
    s.serialize_str("job");
    match &p.job {
        Job::Unemployed => s.serialize_unit_variant("Unemployed"),
        Job::Employed(title) => {
            s.serialize_newtype_variant("Employed");
            s.serialize_str(title);
        }
        Job::Owner { company, net_worth } => {
            s.serialize_struct_variant("Owner", 2);
            s.serialize_str("company");
            s.serialize_str(company);
            s.serialize_str("net_worth");
            s.serialize_i64(*net_worth);
        }
    }
    s.serialize_str("date_of_birth");
    match p.date_of_birth {
        DateOfBirth::Unknown => s.serialize_unit_variant("Unknown"),
        DateOfBirth::Known(d, m, y) => {
            s.serialize_tuple_variant("Known", 3);
            s.serialize_u8(d);
            s.serialize_u8(m);
            s.serialize_u16(y);
        }
    }
    s.serialize_str("weight");
    match p.weight {
        Some(w) => s.serialize_float_text(&w.to_string()),
        None => s.serialize_none(),
    }
}

fn unknown(what: &str) -> Error {
    Error::DeserializeError(format!("unknown {what}"))
}

fn decode_person(d: &mut Deserializer<'_>) -> Result<Person, Error> {
    let mut fields = d.deserialize_struct()?;
    let (mut name, mut age, mut gender, mut job, mut dob, mut weight) =
        (None, None, None, None, None, None);
    while fields.next_key() {
        match d.deserialize_identifier()?.as_str() {
            "name" => name = Some(d.deserialize_string()?),
            "age" => age = Some(d.deserialize_u32()?),
            "gender" => {
                let v = d.deserialize_enum()?;
                v.unit_variant()?;
                gender = Some(match v.variant().as_str() {
                    "Male" => Gender::Male,
                    "Female" => Gender::Female,
                    _ => return Err(unknown("gender")),
                });
            }
            "job" => {
                let v = d.deserialize_enum()?;
                job = Some(match v.variant().as_str() {
                    "Unemployed" => {
                        v.unit_variant()?;
                        Job::Unemployed
                    }
                    "Employed" => {
                        v.payload_variant()?;
                        Job::Employed(d.deserialize_string()?)
                    }
                    "Owner" => {
                        v.payload_variant()?;
                        let mut inner = d.deserialize_struct()?;
                        let (mut company, mut net_worth) = (None, None);
                        while inner.next_key() {
                            match d.deserialize_identifier()?.as_str() {
                                "company" => company = Some(d.deserialize_string()?),
                                "net_worth" => net_worth = Some(d.deserialize_i64()?),
                                _ => return Err(unknown("field")),
                            }
                        }
                        Job::Owner { company: company.unwrap(), net_worth: net_worth.unwrap() }
                    }
                    _ => return Err(unknown("job")),
                });
            }
            "date_of_birth" => {
                let v = d.deserialize_enum()?;
                dob = Some(match v.variant().as_str() {
                    "Unknown" => {
                        v.unit_variant()?;
                        DateOfBirth::Unknown
                    }
                    "Known" => {
                        v.payload_variant()?;
                        let mut items = d.deserialize_tuple()?;
                        assert!(items.next_element());
                        let day = d.deserialize_u8()?;
                        assert!(items.next_element());
                        let month = d.deserialize_u8()?;
                        assert!(items.next_element());
                        let year = d.deserialize_u16()?;
                        assert!(!items.next_element());
                        DateOfBirth::Known(day, month, year)
                    }
                    _ => return Err(unknown("date")),
                });
            }
            "weight" => {
                weight = Some(if d.deserialize_option()? {
                    Some(d.deserialize_float_text()?.parse::<f64>().unwrap())
                } else {
                    None
                });
            }
            _ => return Err(unknown("field")),
        }
    }
    Ok(Person {
        name: name.unwrap(),
        age: age.unwrap(),
        gender: gender.unwrap(),
        job: job.unwrap(),
        date_of_birth: dob.unwrap(),
        weight: weight.unwrap(),
    })
}

fn people() -> Vec<Person> {
    let alice = Person {
        name: "Alice".to_string(),
        age: 30,
        gender: Gender::Female,
        job: Job::Employed("Engineer".to_string()),
        date_of_birth: DateOfBirth::Known(15, 5, 1993),
        weight: Some(65.5),
    };
    let bob = Person {
        name: "Bob".to_string(),
        age: 25,
        gender: Gender::Male,
        job: Job::Owner {
            company: "Tech Corp".to_string(),
            net_worth: 1_000_000,
        },
        date_of_birth: DateOfBirth::Known(20, 10, 1998),
        weight: None,
    };
    let charlie = Person {
        name: "Charlie".to_string(),
        age: 40,
        gender: Gender::Male,
        job: Job::Unemployed,
        date_of_birth: DateOfBirth::Unknown,
        weight: Some(80.0),
    };
    vec![alice, bob, charlie]
}

fn round_trip(people: &[Person]) -> Vec<Person> {
    let mut s = Serializer::new();
    s.serialize_seq(Some(people.len()));
    for p in people {
        encode_person(&mut s, p);
    }
    let text = s.into_string().unwrap();
    let mut d = Deserializer::new(text.as_bytes());
    let mut items = d.deserialize_seq().unwrap();
    let mut out = Vec::new();
    while items.next_element() {
        out.push(decode_person(&mut d).unwrap());
    }
    out
}

#[test]
fn complex() {
    let people = people();
    assert_eq!(round_trip(&people), people);
}

#[test]
fn complex_structs() {
    let people = people();
    let deserialized_people = round_trip(&people);
    assert_eq!(deserialized_people, people);
}

#[derive(Debug, PartialEq)]
struct Simple {
    name: String,
    age: u32,
}

fn decode_simple(text: &str) -> Result<Simple, Error> {
    let mut d = Deserializer::new(text.as_bytes());
    let mut fields = d.deserialize_struct()?;
    let (mut name, mut age) = (None, None);
    while fields.next_key() {
        match d.deserialize_identifier()?.as_str() {
            "name" => name = Some(d.deserialize_string()?),
            "age" => age = Some(d.deserialize_u32()?),
            _ => return Err(unknown("field")),
        }
    }
    Ok(Simple { name: name.unwrap(), age: age.unwrap() })
}

#[test]
fn simple() {
    let person = Simple {
        name: "Alice".to_string(),
        age: 30,
    };
    let mut s = Serializer::new();
    s.serialize_struct(2);
    s.serialize_str("name");
    s.serialize_str(&person.name);
    s.serialize_str("age");
    s.serialize_u32(person.age);
    let serialized = s.into_string().unwrap();
    let deserialized = decode_simple(&serialized).unwrap();
    let deserialized_raw = decode_simple("%2\r\n+name\r\n+Alice\r\n+age\r\n:30\r\n").unwrap();
    assert_eq!(deserialized, person);
    assert_eq!(deserialized_raw, person);
}
