use async_stream_connection::socket_text::{parse_socket_addr, push_socket_addr};

/// A fixed sequence of numbers that looks random.
struct Sequence(u64);

impl Sequence {
    fn next(&mut self, n: u64) -> u64 {
        self.0 = self.0.wrapping_mul(6364136223846793005).wrapping_add(1442695040888963407);
        (self.0 >> 33) % n
    }
}

fn hex_group(r: &mut Sequence) -> String {
    let len = match r.next(10) {
        0 => 0,
        1 => 5,
        n => 1 + (n % 4),
    };
    let digits = ['0', '0', '0', '1', 'f', 'F', 'a', '9', 'c', 'D'];
    (0..len).map(|_| digits[r.next(10) as usize]).collect()
}

fn octet(r: &mut Sequence) -> String {
    let choices = ["0", "1", "9", "10", "99", "100", "255", "256", "01", "00", "1000", "", "25", "199", "a"];
    let pick = if r.next(4) == 0 { r.next(15) } else { r.next(7) };
    choices[pick as usize].to_string()
}

fn quad(r: &mut Sequence) -> String {
    let n = if r.next(8) == 0 { 3 + r.next(3) } else { 4 };
    (0..n).map(|_| octet(r)).collect::<Vec<_>>().join(".")
}

fn port(r: &mut Sequence) -> String {
    let choices = ["0", "80", "65535", "65536", "00080", "", "0000000000000000000001", "99999", "8a", "1"];
    let pick = if r.next(3) == 0 { r.next(10) } else { r.next(3) };
    choices[pick as usize].to_string()
}

fn list(r: &mut Sequence, n: u64, with_quad: bool) -> String {
    let mut parts: Vec<String> = (0..n).map(|_| hex_group(r)).collect();
    if with_quad {
        parts.push(quad(r));
    }
    parts.join(":")
}

fn body(r: &mut Sequence) -> String {
    if r.next(3) == 0 {
        let n = 5 + r.next(5);
        let q = r.next(4) == 0;
        list(r, n, q)
    } else {
        let h = r.next(5);
        let t = r.next(5);
        let q = r.next(3) == 0;
        let gap = if r.next(12) == 0 { ":::" } else { "::" };
        format!("{}{}{}", list(r, h, false), gap, list(r, t, q))
    }
}

/// A text that is, or nearly is, an endpoint in numeric notation.
fn candidate(r: &mut Sequence) -> String {
    if r.next(4) == 0 {
        format!("{}:{}", quad(r), port(r))
    } else {
        format!("[{}]:{}", body(r), port(r))
    }
}

#[test]
fn accepted_text_means_what_the_system_reads() {
    let rt = tokio::runtime::Builder::new_current_thread().enable_all().build().unwrap();
    let mut r = Sequence(12345);
    let mut accepted = 0;
    for _ in 0..40000 {
        let text = candidate(&mut r);
        let chars: Vec<char> = text.chars().collect();
        if let Some(a) = parse_socket_addr(&chars) {
            accepted += 1;
            let mut ours = String::new();
            push_socket_addr(&mut ours, &a);
            let theirs = rt
                .block_on(tokio::net::lookup_host(text.as_str()))
                .ok()
                .and_then(|mut found| found.next())
                .map(|a| a.to_string());
            assert_eq!(theirs, Some(ours), "{:?}", text);
            let again: Vec<char> = theirs.unwrap().chars().collect();
            assert_eq!(parse_socket_addr(&again), Some(a), "{:?}", text);
        }
    }
    assert!(accepted > 5000);
}
