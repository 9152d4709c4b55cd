//! A chain around a simulated collection: creation, mutation, decisions, restart and recovery.

use std::collections::{BTreeMap, BTreeSet};

use sha2::Digest;
use tc_chain::{
    identity, reference, Argument, Capture, Captured, ChainBlock, ChainError, ChainFile,
    ChainHandler, CollectionRef, Effect, ErrorKind, Leaf, Mutation, MutationRecord, Opening, Outcome,
    Progress, Reply, Request, Resolution, Resolved, Scalar, Status, Store, SubjectPath, SyncChain,
    Task, TxnId, TxnMap, TxnTaskQueue,
};

fn id(n: u16) -> TxnId {
    let half = u128::from_be_bytes([n as u8; 16]);
    TxnId { time: 100, nonce: n, trace_high: half, trace_low: half }
}

type Key = (u64, u16, u128, u128);

fn order(id: &TxnId) -> Key {
    (id.time, id.nonce, id.trace_high, id.trace_low)
}

fn path(text: &str) -> SubjectPath {
    SubjectPath::parse(text).unwrap()
}

fn literal(text: &str) -> Scalar {
    Scalar::Literal(text.to_string())
}

fn delegated(message: &str) -> ChainError {
    ChainError::Delegated(ErrorKind::Internal, message.to_string())
}

// ----- a native collection -----

/// A native collection value: its class, its schema and its rows in the order of the view.
#[derive(Clone)]
struct Native {
    table: bool,
    rows: Vec<u64>,
}

impl Native {
    fn empty(table: bool) -> Self {
        Native { table, rows: Vec::new() }
    }

    fn class(&self) -> SubjectPath {
        path(if self.table { "/state/collection/table" } else { "/state/collection/btree" })
    }

    fn schema(&self) -> String {
        if self.table { "[[\"key\"],[\"value\"],[]]" } else { "[[\"key\"]]" }.to_string()
    }

    fn hash(&self) -> Vec<u8> {
        let mut digest = sha2::Sha256::new();
        digest.update(self.class().as_str().as_bytes());
        digest.update(self.schema().as_bytes());
        for row in &self.rows {
            digest.update(row.to_be_bytes());
        }
        digest.finalize().to_vec()
    }

    /// A native copy has its rows in canonical order.
    fn copy(&self) -> Native {
        let mut rows = self.rows.clone();
        rows.sort();
        Native { table: self.table, rows }
    }
}

// ----- a transactional subject -----

#[derive(Clone)]
enum Delta {
    Insert(u64),
    Delete(u64),
    Replace(Vec<u64>),
}

/// A transactional collection, whose committed versions stay in memory until they are finalized.
#[derive(Clone)]
struct Subject {
    table: bool,
    persistent: bool,
    canonical: BTreeSet<u64>,
    committed: BTreeMap<Key, Vec<Delta>>,
    pending: BTreeMap<Key, Vec<Delta>>,
    cutoff: Option<Key>,
}

impl Subject {
    fn new(table: bool, canonical: BTreeSet<u64>) -> Self {
        Subject {
            table,
            persistent: true,
            canonical,
            committed: BTreeMap::new(),
            pending: BTreeMap::new(),
            cutoff: None,
        }
    }

    fn apply(rows: &mut BTreeSet<u64>, deltas: &[Delta]) {
        for delta in deltas {
            match delta {
                Delta::Insert(row) => {
                    rows.insert(*row);
                }
                Delta::Delete(row) => {
                    rows.remove(row);
                }
                Delta::Replace(all) => *rows = all.iter().copied().collect(),
            }
        }
    }

    fn visible(&self, id: &TxnId) -> BTreeSet<u64> {
        let mut rows = self.canonical.clone();
        for (key, deltas) in &self.committed {
            if *key <= order(id) {
                Self::apply(&mut rows, deltas);
            }
        }
        if let Some(deltas) = self.pending.get(&order(id)) {
            Self::apply(&mut rows, deltas);
        }
        rows
    }

    fn write(&mut self, id: &TxnId, delta: Delta) {
        self.pending.entry(order(id)).or_default().push(delta);
    }

    fn number(text: &str) -> Result<u64, ChainError> {
        text.trim_start_matches('[').trim_end_matches(']').parse().map_err(|_| delegated("not a row"))
    }

    /// Insert a row. A table refuses a row which it already has.
    fn insert(&mut self, id: &TxnId, value: &str) -> Result<(), ChainError> {
        let row = Self::number(value)?;
        if self.table && self.visible(id).contains(&row) {
            return Err(delegated("the row exists"));
        }
        self.write(id, Delta::Insert(row));
        Ok(())
    }

    fn delete(&mut self, id: &TxnId, key: &str) -> Result<(), ChainError> {
        let row = Self::number(key)?;
        self.write(id, Delta::Delete(row));
        Ok(())
    }

    fn commit(&mut self, id: &TxnId) {
        if let Some(deltas) = self.pending.remove(&order(id)) {
            self.committed.insert(order(id), deltas);
        }
    }

    fn rollback(&mut self, id: &TxnId) {
        self.pending.remove(&order(id));
    }

    fn finalize(&mut self, cutoff: &TxnId) {
        let later = self.committed.split_off(&order(cutoff));
        let mut covered = std::mem::replace(&mut self.committed, later);
        if let Some(deltas) = self.committed.remove(&order(cutoff)) {
            covered.insert(order(cutoff), deltas);
        }
        for deltas in covered.values() {
            Self::apply(&mut self.canonical, deltas);
        }
        self.pending.retain(|key, _| *key > order(cutoff));
        self.cutoff = Some(order(cutoff));
    }

    /// Invoke a recorded request.
    fn invoke(&mut self, id: &TxnId, record: &MutationRecord, values: &Values) -> Result<(), ChainError> {
        match record {
            MutationRecord::Put(path, _, Scalar::Literal(value)) if path.as_str() == "/insert" => {
                self.insert(id, value)
            }
            MutationRecord::Delete(path, Scalar::Literal(key)) if path.as_str() == "/" => {
                self.delete(id, key)
            }
            MutationRecord::Restore(Scalar::Get(found)) => {
                let rows = values[&found.name].rows.clone().unwrap();
                self.write(id, Delta::Replace(rows));
                Ok(())
            }
            _ => Err(delegated("the subject has no such method")),
        }
    }
}

// ----- storage -----

/// A stored collection; one whose copy was interrupted has no rows.
#[derive(Clone)]
struct Stored {
    table: bool,
    rows: Option<Vec<u64>>,
    synchronized: bool,
}

type Values = BTreeMap<String, Stored>;

fn encode_scalar(out: &mut String, scalar: &Scalar) {
    match scalar {
        Scalar::Literal(text) => out.push_str(&format!("L{}:{}", text.len(), text)),
        Scalar::Ref(text) => out.push_str(&format!("R{}:{}", text.len(), text)),
        Scalar::Get(get) => {
            out.push('G');
            for text in [get.name.as_str(), get.path.as_str(), get.schema.as_str()] {
                out.push_str(&format!("{}:{}", text.len(), text));
            }
        }
    }
}

/// Identities have one width, whether they are there or not.
fn encode_id(out: &mut String, id: &Option<TxnId>) {
    match id {
        None => out.push_str(&format!("-{:96}", "")),
        Some(id) => out.push_str(&format!(
            "+{:020},{:08},{:032x},{:032x};",
            id.time, id.nonce, id.trace_high, id.trace_low
        )),
    }
}

/// Encode a file, in one chunk for each transaction.
fn encode(file: &ChainFile) -> Vec<Vec<u8>> {
    let mut chunks = Vec::new();
    let mut head = String::new();
    encode_id(&mut head, &file.frontier);
    encode_id(&mut head, &file.materializing);
    for byte in file.block.previous_hash {
        head.push_str(&format!("{byte:02x}"));
    }
    head.push_str(&format!("{};", file.block.mutations.len()));
    chunks.push(head.into_bytes());
    for i in 0..file.block.mutations.len() {
        let (id, records) = file.block.mutations.at(i);
        let mut out = String::new();
        encode_id(&mut out, &Some(id));
        out.push_str(&format!("{};", records.len()));
        for record in records {
            match record {
                MutationRecord::Put(path, key, value) => {
                    out.push_str(&format!("P{}:{}", path.as_str().len(), path.as_str()));
                    encode_scalar(&mut out, key);
                    encode_scalar(&mut out, value);
                }
                MutationRecord::Delete(path, key) => {
                    out.push_str(&format!("D{}:{}", path.as_str().len(), path.as_str()));
                    encode_scalar(&mut out, key);
                }
                MutationRecord::Restore(value) => {
                    out.push('S');
                    encode_scalar(&mut out, value);
                }
            }
        }
        chunks.push(out.into_bytes());
    }
    chunks
}

struct Reader<'a> {
    rest: &'a str,
}

impl<'a> Reader<'a> {
    fn take(&mut self, n: usize) -> Result<&'a str, ChainError> {
        if !self.rest.is_char_boundary(n) || n > self.rest.len() {
            return Err(ChainError::Invalid("truncated".to_string()));
        }
        let (first, rest) = self.rest.split_at(n);
        self.rest = rest;
        Ok(first)
    }

    fn until(&mut self, end: char) -> Result<&'a str, ChainError> {
        let n = self.rest.find(end).ok_or_else(|| ChainError::Invalid("truncated".to_string()))?;
        let text = self.take(n)?;
        self.take(1)?;
        Ok(text)
    }

    fn number<N: std::str::FromStr>(&mut self, end: char) -> Result<N, ChainError> {
        self.until(end)?.parse().map_err(|_| ChainError::Invalid("not a number".to_string()))
    }

    fn trace(&mut self, end: char) -> Result<u128, ChainError> {
        u128::from_str_radix(self.until(end)?, 16)
            .map_err(|_| ChainError::Invalid("not a trace".to_string()))
    }

    fn text(&mut self) -> Result<String, ChainError> {
        let n = self.number(':')?;
        Ok(self.take(n)?.to_string())
    }

    fn path(&mut self) -> Result<SubjectPath, ChainError> {
        SubjectPath::parse(&self.text()?)
    }

    fn scalar(&mut self) -> Result<Scalar, ChainError> {
        match self.take(1)? {
            "L" => Ok(Scalar::Literal(self.text()?)),
            "R" => Ok(Scalar::Ref(self.text()?)),
            "G" => Ok(Scalar::Get(CollectionRef {
                name: self.text()?,
                path: self.path()?,
                schema: self.text()?,
            })),
            _ => Err(ChainError::Invalid("not a scalar".to_string())),
        }
    }

    fn id(&mut self) -> Result<Option<TxnId>, ChainError> {
        match self.take(1)? {
            "-" => {
                self.take(96)?;
                Ok(None)
            }
            "+" => Ok(Some(TxnId {
                time: self.number(',')?,
                nonce: self.number(',')?,
                trace_high: self.trace(',')?,
                trace_low: self.trace(';')?,
            })),
            _ => Err(ChainError::Invalid("not an identity".to_string())),
        }
    }
}

fn decode(payload: &[u8]) -> Result<ChainFile, ChainError> {
    let text = std::str::from_utf8(payload)
        .map_err(|_| ChainError::Invalid("not a text".to_string()))?;
    let mut reader = Reader { rest: text };
    let frontier = reader.id()?;
    let materializing = reader.id()?;
    let mut hash = Vec::new();
    for _ in 0..32 {
        let byte = u8::from_str_radix(reader.take(2)?, 16)
            .map_err(|_| ChainError::Invalid("not a hash".to_string()))?;
        hash.push(byte);
    }
    let count: usize = reader.number(';')?;
    let mut transactions = Vec::new();
    for _ in 0..count {
        let id = reader.id()?.ok_or_else(|| ChainError::Invalid("no identity".to_string()))?;
        let n: usize = reader.number(';')?;
        let mut records = Vec::new();
        for _ in 0..n {
            records.push(match reader.take(1)? {
                "P" => MutationRecord::Put(reader.path()?, reader.scalar()?, reader.scalar()?),
                "D" => MutationRecord::Delete(reader.path()?, reader.scalar()?),
                "S" => MutationRecord::Restore(reader.scalar()?),
                _ => return Err(ChainError::Invalid("not a record".to_string())),
            });
        }
        transactions.push((id, records));
    }
    let block = ChainBlock::decode(hash, transactions)?;
    Ok(ChainFile { frontier, materializing, block })
}

fn read_bytes(bytes: &Vec<u8>) -> Result<ChainFile, ChainError> {
    let decoded = match ChainFile::payload(bytes) {
        Ok(payload) => decode(&payload),
        Err(error) => Err(error),
    };
    ChainFile::load(bytes, decoded)
}

/// What survives a restart.
struct Disk {
    canonical: Option<(bool, BTreeSet<u64>)>,
    log: Option<Vec<u8>>,
    values: Values,
    /// The largest committed file which is admitted.
    admits: usize,
    /// A captured collection which cannot be deleted.
    obstructed: Option<String>,
}

impl Disk {
    fn new() -> Self {
        Disk {
            canonical: None,
            log: None,
            values: Values::new(),
            admits: 32 * 1024 * 1024,
            obstructed: None,
        }
    }

    fn read_log(&self) -> Result<ChainFile, ChainError> {
        read_bytes(self.log.as_ref().ok_or(ChainError::MissingBlock)?)
    }

    fn write_log(&mut self, file: &ChainFile) -> Result<(), ChainError> {
        let chunks = encode(file);
        let size = ChainFile::size(&chunks.iter().map(Vec::len).collect())?;
        if size > self.admits {
            return Err(delegated("the cache does not admit the file"));
        }
        let (bytes, written) = ChainFile::save(&chunks)?;
        assert_eq!(bytes.len(), size);
        assert_eq!(written, size as u64);
        self.log = Some(bytes);
        Ok(())
    }

    fn write_records(&mut self, id: TxnId, records: Vec<MutationRecord>) {
        let mut file = match &self.log {
            Some(_) => self.read_log().unwrap(),
            None => ChainFile::default(),
        };
        file.block.mutations.insert(id, records);
        self.write_log(&file).unwrap();
    }

    fn read_records(&self, id: TxnId) -> Vec<MutationRecord> {
        self.read_log().unwrap().block.mutations.get(&id).unwrap().clone()
    }

    fn retain_records(&mut self, ids: &[TxnId]) {
        let mut file = self.read_log().unwrap();
        let mut kept = TxnMap::new();
        for (id, records) in file.block.mutations.into_entries() {
            if ids.contains(&id) {
                kept.insert(id, records);
            }
        }
        file.block.mutations = kept;
        self.write_log(&file).unwrap();
    }

    /// Load a stored collection strictly.
    fn resolve(&self, found: &CollectionRef) -> Result<Resolution, ChainError> {
        let known = [Native::empty(false), Native::empty(true)]
            .into_iter()
            .find(|known| known.class().same(&found.path) && known.schema() == found.schema);
        let Some(known) = known else {
            return Ok(Resolution::InvalidSchema);
        };
        match self.values.get(&found.name) {
            None => Ok(Resolution::Missing),
            Some(Stored { rows: None, .. }) => Err(delegated("the collection is incomplete")),
            Some(Stored { rows: Some(rows), .. }) => Ok(Resolution::Loaded(
                Native { table: known.table, rows: rows.clone() }.hash(),
            )),
        }
    }

    fn copy(&mut self, name: String, source: &Native) {
        let copy = source.copy();
        let stored = Stored { table: copy.table, rows: Some(copy.rows), synchronized: false };
        assert!(self.values.insert(name, stored).is_none());
    }

    /// Capture a value as the chain does.
    fn capture(&mut self, value: &Value) -> Result<Scalar, ChainError> {
        let mut captured = Store::capture(value.argument())?;
        loop {
            let (capture, task): (Capture, Task) = match captured {
                Captured::Value(value) => return Ok(value),
                Captured::Pending(capture, task) => (capture, task),
            };
            let outcome = self.perform(value, task);
            captured = capture.advance(outcome)?;
        }
    }

    fn perform(&mut self, value: &Value, task: Task) -> Outcome {
        match (task, value) {
            (Task::Identify, Value::Collection(source)) => Outcome::Identified {
                hash: source.hash(),
                path: source.class(),
                schema: source.schema(),
            },
            (Task::Probe(name), _) => Outcome::Probed(self.values.contains_key(&name)),
            (Task::Copy(name), Value::Collection(source)) => {
                self.copy(name, source);
                Outcome::Done
            }
            (Task::Resolve(found), _) => match self.resolve(&found) {
                Ok(resolution) => Outcome::Resolved(resolution),
                Err(error) => Outcome::Failed(error),
            },
            _ => panic!("not a task of a capture"),
        }
    }

    fn resolve_value(&self, value: Scalar) -> Result<Resolved, ChainError> {
        let found = match reference(&value)? {
            Some(found) => self.resolve(found)?,
            None => Resolution::Missing,
        };
        Store::resolve(value, &found)
    }

    fn sync(&mut self, records: &Vec<MutationRecord>) -> Result<(), ChainError> {
        for name in Store::sync(records)? {
            let stored = self.values.get_mut(&name).ok_or(ChainError::MissingCollection)?;
            stored.synchronized = true;
        }
        Ok(())
    }

    fn reclaim(&mut self) -> Result<(), ChainError> {
        let retained = Store::published(&self.read_log()?)?;
        let names = self.values.keys().cloned().collect();
        for name in Store::orphans(names, &retained) {
            self.values.remove(&name);
        }
        Ok(())
    }
}

/// The value of a PUT request.
enum Value {
    Scalar(Scalar),
    Collection(Native),
}

impl Value {
    fn argument(&self) -> Argument {
        match self {
            Value::Scalar(scalar) => Argument::Scalar(scalar.clone()),
            Value::Collection(_) => Argument::Collection,
        }
    }
}

// ----- the owner of a chain -----

struct Fixture {
    disk: Disk,
    table: bool,
    performed: Vec<&'static str>,
}

struct Live {
    chain: SyncChain,
    subject: Subject,
}

fn label(effect: &Effect) -> &'static str {
    match effect {
        Effect::ReadCommitted => "read",
        Effect::CreateCommitted(_) => "create",
        Effect::Publish(_) => "publish",
        Effect::SyncCapture(_) => "sync capture",
        Effect::LoadSubject => "load subject",
        Effect::SyncSubject => "sync subject",
        Effect::InitializeCutoff(_) => "initialize cutoff",
        Effect::CommitSubject(_) => "commit subject",
        Effect::RollbackSubject(_) => "roll back subject",
        Effect::FinalizeSubject(_) => "finalize subject",
        Effect::Resolve(..) => "resolve",
        Effect::RequestTransaction(_) => "request transaction",
        Effect::Apply(..) => "apply",
        Effect::ListCaptures => "list captures",
        Effect::DeleteCapture(_) => "delete capture",
        Effect::SyncDeleted => "sync deleted",
    }
}

type Transactions<'a> = &'a mut dyn FnMut(TxnId) -> Result<TxnId, ChainError>;

fn originals(id: TxnId) -> Result<TxnId, ChainError> {
    Ok(id)
}

fn none(_: TxnId) -> Result<TxnId, ChainError> {
    panic!("no capability may be requested")
}

impl Fixture {
    fn new() -> Self {
        Fixture { disk: Disk::new(), table: false, performed: Vec::new() }
    }

    fn perform(
        &mut self,
        effect: Effect,
        subject: &mut Option<Subject>,
        transactions: Transactions<'_>,
    ) -> Reply {
        self.performed.push(label(&effect));
        let result = match effect {
            Effect::ReadCommitted => {
                return match self.disk.log {
                    None => Reply::Missing,
                    Some(_) => match self.disk.read_log() {
                        Ok(file) => Reply::Committed(file),
                        Err(error) => Reply::Failed(error),
                    },
                }
            }
            Effect::CreateCommitted(file) => {
                assert!(self.disk.log.is_none());
                self.disk.write_log(&file)
            }
            Effect::Publish(file) => self.disk.write_log(&file),
            Effect::SyncCapture(name) => match self.disk.values.get_mut(&name) {
                Some(stored) => {
                    stored.synchronized = true;
                    Ok(())
                }
                None => return Reply::Missing,
            },
            Effect::LoadSubject => {
                if subject.is_none() {
                    match &self.disk.canonical {
                        Some((table, rows)) => *subject = Some(Subject::new(*table, rows.clone())),
                        None => return Reply::Failed(delegated("there is no canonical subject")),
                    }
                }
                return Reply::Subject { persistent: subject.as_ref().unwrap().persistent };
            }
            Effect::SyncSubject => {
                let subject = subject.as_ref().unwrap();
                self.disk.canonical = Some((subject.table, subject.canonical.clone()));
                Ok(())
            }
            Effect::InitializeCutoff(cutoff) => {
                subject.as_mut().unwrap().cutoff = Some(order(&cutoff));
                Ok(())
            }
            Effect::CommitSubject(id) => {
                subject.as_mut().unwrap().commit(&id);
                Ok(())
            }
            Effect::RollbackSubject(id) => {
                subject.as_mut().unwrap().rollback(&id);
                Ok(())
            }
            Effect::FinalizeSubject(cutoff) => {
                subject.as_mut().unwrap().finalize(&cutoff);
                Ok(())
            }
            Effect::Resolve(_, found) => {
                return match self.disk.resolve(&found) {
                    Ok(resolution) => Reply::Resolved(resolution),
                    Err(error) => Reply::Failed(error),
                }
            }
            Effect::RequestTransaction(id) => {
                return match transactions(id) {
                    Ok(id) => Reply::Transaction(id),
                    Err(error) => Reply::Failed(error),
                }
            }
            Effect::Apply(id, record) => {
                subject.as_mut().unwrap().invoke(&id, &record, &self.disk.values)
            }
            Effect::ListCaptures => {
                return Reply::Captures(self.disk.values.keys().cloned().collect())
            }
            Effect::DeleteCapture(name) => {
                if self.disk.obstructed.as_ref() == Some(&name) {
                    Err(delegated("the capture cannot be deleted"))
                } else {
                    self.disk.values.remove(&name);
                    Ok(())
                }
            }
            Effect::SyncDeleted => Ok(()),
        };
        match result {
            Ok(()) => Reply::Done,
            Err(error) => Reply::Failed(error),
        }
    }

    fn open(
        &mut self,
        begun: Result<(Opening, Effect), ChainError>,
        subject: Option<Subject>,
        transactions: Transactions<'_>,
    ) -> Result<Live, ChainError> {
        let mut subject = subject;
        let (mut opening, mut effect) = begun?;
        loop {
            let reply = self.perform(effect, &mut subject, &mut *transactions);
            match opening.advance(reply)? {
                Progress::Next(next, following) => {
                    opening = next;
                    effect = following;
                }
                Progress::Opened(chain) => {
                    return Ok(Live { chain, subject: subject.unwrap() });
                }
            }
        }
    }

    fn create(
        &mut self,
        subject: Subject,
        queue: TxnTaskQueue<MutationRecord>,
    ) -> Result<Live, ChainError> {
        let begun = SyncChain::create(
            subject.persistent,
            self.disk.log.is_none(),
            self.disk.values.is_empty(),
            queue,
        );
        self.open(begun, Some(subject), &mut none)
    }

    fn load(
        &mut self,
        subject: Option<Subject>,
        queue: TxnTaskQueue<MutationRecord>,
        transactions: Transactions<'_>,
    ) -> Result<Live, ChainError> {
        self.open(SyncChain::load(queue), subject, transactions)
    }

    fn chain(&mut self, table: bool) -> Live {
        self.table = table;
        let subject = Subject::new(table, BTreeSet::new());
        self.create(subject, TxnTaskQueue::new(64)).unwrap()
    }

    fn reopen(&mut self) -> Result<Live, ChainError> {
        self.load(None, TxnTaskQueue::new(64), &mut originals)
    }

    fn drive(
        &mut self,
        live: &mut Live,
        begun: Result<Option<Effect>, ChainError>,
    ) -> Result<(), ChainError> {
        let mut next = begun?;
        let mut subject = Some(live.subject.clone());
        while let Some(effect) = next {
            let reply = self.perform(effect, &mut subject, &mut none);
            live.subject = subject.clone().unwrap();
            next = live.chain.advance(reply)?;
        }
        Ok(())
    }

    fn commit(&mut self, live: &mut Live, n: u16) -> Result<(), ChainError> {
        let begun = live.chain.commit(id(n));
        self.drive(live, begun)
    }

    fn rollback(&mut self, live: &mut Live, n: u16) -> Result<(), ChainError> {
        let begun = live.chain.rollback(id(n));
        self.drive(live, begun)
    }

    fn finalize(&mut self, live: &mut Live, n: u16) -> Result<(), ChainError> {
        let begun = live.chain.finalize(id(n));
        self.drive(live, begun)
    }

    /// Go on with a request until its handler is to be invoked.
    fn prepare(
        &mut self,
        live: &mut Live,
        begun: (Mutation, Task),
        value: &Value,
    ) -> Result<Mutation, ChainError> {
        let (mut mutation, mut task) = begun;
        loop {
            if matches!(task, Task::Invoke) {
                return Ok(mutation);
            }
            let outcome = self.disk.perform(value, task);
            match live.chain.proceed(mutation, outcome)? {
                Some((next, following)) => {
                    mutation = next;
                    task = following;
                }
                None => panic!("a request is not completed before its handler is invoked"),
            }
        }
    }

    /// Invoke the handler of a prepared request, and complete the request.
    fn complete(
        &mut self,
        live: &mut Live,
        n: u16,
        mutation: Mutation,
        record: &MutationRecord,
    ) -> Result<(), ChainError> {
        let outcome = match live.subject.invoke(&id(n), record, &self.disk.values) {
            Ok(()) => Outcome::Done,
            Err(error) => Outcome::Failed(error),
        };
        assert!(live.chain.proceed(mutation, outcome)?.is_none());
        Ok(())
    }

    fn begin_put(
        &mut self,
        live: &mut Live,
        n: u16,
        key: &str,
        value: &Value,
    ) -> Result<Mutation, ChainError> {
        let handler = route("/insert").unwrap();
        let begun = handler.put(&mut live.chain, id(n), literal(key), value.argument()).unwrap()?;
        self.prepare(live, begun, value)
    }

    fn put(&mut self, live: &mut Live, n: u16, key: &str, value: Value) -> Result<(), ChainError> {
        let mutation = self.begin_put(live, n, key, &value)?;
        let record = match value {
            Value::Scalar(value) => MutationRecord::Put(path("/insert"), literal(key), value),
            Value::Collection(_) => {
                MutationRecord::Put(path("/insert"), literal(key), Scalar::Ref(String::new()))
            }
        };
        self.complete(live, n, mutation, &record)
    }

    fn insert(&mut self, live: &mut Live, n: u16, row: u64) -> Result<(), ChainError> {
        let (key, value) = row_of(self.table, row);
        self.put(live, n, &key, Value::Scalar(value))
    }

    fn delete(&mut self, live: &mut Live, n: u16, row: u64) -> Result<(), ChainError> {
        let handler = route("/").unwrap();
        let key = literal(&format!("[{row}]"));
        let (mutation, task) = handler.delete(&mut live.chain, id(n), key.clone()).unwrap()?;
        assert!(matches!(task, Task::Invoke));
        self.complete(live, n, mutation, &MutationRecord::Delete(path("/"), key))
    }
}

fn row_of(table: bool, row: u64) -> (String, Scalar) {
    let key = if table { format!("[{row}]") } else { "null".to_string() };
    (key, literal(&format!("[{row}]")))
}

/// The routes of the subject.
fn route(text: &str) -> Option<ChainHandler> {
    let leaf = match text {
        "/insert" => Some(Leaf { get: false, post: false, put: true, delete: false }),
        "/count" => Some(Leaf { get: true, post: true, put: false, delete: false }),
        "/" => Some(Leaf { get: true, post: false, put: false, delete: true }),
        _ => None,
    };
    ChainHandler::route(path(text), leaf)
}

fn try_count(live: &Live, n: u16) -> Result<u64, ChainError> {
    route("/count").unwrap().get(&live.chain, &id(n)).unwrap()?;
    Ok(live.subject.visible(&id(n)).len() as u64)
}

fn count(live: &Live, n: u16) -> u64 {
    try_count(live, n).unwrap()
}

// ----- tests -----

#[test]
fn delegated_queue_admits_before_capture_and_recovery_ignores_pending_capacity() {
    let mut f = Fixture::new();
    let mut live = f.create(Subject::new(false, BTreeSet::new()), TxnTaskQueue::new(2)).unwrap();
    f.insert(&mut live, 2, 1).unwrap();
    f.insert(&mut live, 2, 2).unwrap();
    let error =
        f.put(&mut live, 2, "null", Value::Collection(Native::empty(false))).unwrap_err();
    assert!(error.message().contains("capacity exhausted"));
    assert!(f.disk.values.is_empty(), "admission precedes capture");
    assert_eq!(count(&live, 2), 2);
    f.commit(&mut live, 2).unwrap();
    drop(live);

    let mut requested = Vec::new();
    let mut reopened = f
        .load(None, TxnTaskQueue::new(1), &mut |original| {
            requested.push(original);
            Ok(original)
        })
        .unwrap();
    assert_eq!(requested, vec![id(2)]);
    assert_eq!(count(&reopened, 3), 2);
    f.commit(&mut reopened, 2).unwrap();
    f.insert(&mut reopened, 3, 3).unwrap();
    f.rollback(&mut reopened, 3).unwrap();
    f.insert(&mut reopened, 4, 4).unwrap();
    f.commit(&mut reopened, 4).unwrap();
    f.finalize(&mut reopened, 4).unwrap();
    drop(reopened);
    let reopened = f.reopen().unwrap();
    assert_eq!(count(&reopened, 5), 3);
}

#[test]
fn create_and_load_reject_used_queues_before_publication_or_replay() {
    for finalized in [false, true] {
        let used = || {
            let mut queue = TxnTaskQueue::new(1);
            if finalized {
                queue.operation().unwrap();
                queue.finalize(id(1)).unwrap();
                queue.release();
            } else {
                queue.register(id(1)).unwrap();
            }
            queue
        };
        let mut f = Fixture::new();
        let subject = Subject::new(false, BTreeSet::new());
        assert!(f.create(subject.clone(), used()).is_err());
        assert!(f.disk.log.is_none());
        f.disk.canonical = Some((false, BTreeSet::new()));
        f.disk.write_log(&ChainFile::default()).unwrap();
        assert!(f.load(None, used(), &mut none).is_err());
        assert!(f.performed.is_empty());
    }
}

#[test]
fn commit_restart_finalize_restart_for_btree_and_table() {
    for table in [false, true] {
        let mut f = Fixture::new();
        let mut live = f.chain(table);
        assert!(route("/restore").is_none());
        f.insert(&mut live, 2, 7).unwrap();
        assert_eq!(count(&live, 2), 1);
        assert_eq!(count(&live, 1), 0);
        f.commit(&mut live, 2).unwrap();
        f.commit(&mut live, 2).unwrap();
        assert_eq!(count(&live, 3), 1);
        assert!(f.rollback(&mut live, 2).is_err());
        assert_eq!(f.disk.read_records(id(2)).len(), 1);
        drop(live);
        let mut live = f.reopen().unwrap();
        assert_eq!(count(&live, 3), 1);
        f.finalize(&mut live, 2).unwrap();
        f.finalize(&mut live, 2).unwrap();
        let committed = f.disk.read_log().unwrap();
        assert_eq!(committed.frontier, Some(id(2)));
        assert!(committed.block.mutations.is_empty());
        drop(live);
        let live = f.reopen().unwrap();
        assert_eq!(count(&live, 4), 1);
    }
}

#[test]
fn rollback_failure_and_strict_insert_are_not_replayed() {
    let mut f = Fixture::new();
    let mut live = f.chain(true);
    f.insert(&mut live, 2, 1).unwrap();
    assert!(f.insert(&mut live, 2, 1).is_err());
    assert!(f.commit(&mut live, 2).is_err());
    f.rollback(&mut live, 2).unwrap();
    f.rollback(&mut live, 2).unwrap();
    f.insert(&mut live, 3, 2).unwrap();
    f.commit(&mut live, 3).unwrap();
    drop(live);
    let live = f.reopen().unwrap();
    assert_eq!(count(&live, 4), 1);
}

#[test]
fn missing_and_corrupt_committed_blocks_fail_closed() {
    let mut f = Fixture::new();
    let mut live = f.chain(false);
    f.insert(&mut live, 2, 1).unwrap();
    f.commit(&mut live, 2).unwrap();
    drop(live);
    let original = f.disk.log.clone().unwrap();
    let mut changed = original.clone();
    changed[0] ^= 1;
    for bytes in [changed, b"broken".to_vec(), original[..original.len() - 1].to_vec()] {
        f.disk.log = Some(bytes);
        // validate the entire WAL before requesting capabilities
        assert!(f.load(None, TxnTaskQueue::new(64), &mut none).is_err());
    }
    f.disk.log = None;
    assert!(matches!(f.reopen(), Err(ChainError::MissingBlock)));
}

#[test]
fn recovery_rejects_replacement_transaction_ids() {
    let mut f = Fixture::new();
    let mut live = f.chain(false);
    f.insert(&mut live, 2, 1).unwrap();
    f.commit(&mut live, 2).unwrap();
    drop(live);
    let result = f.load(None, TxnTaskQueue::new(64), &mut |_| Ok(id(9)));
    assert!(matches!(result, Err(ChainError::IdentityMismatch)));
}

#[test]
fn durable_canonical_insert_with_retained_wal_fails_closed() {
    let mut f = Fixture::new();
    let mut live = f.chain(true);
    f.insert(&mut live, 2, 1).unwrap();
    f.commit(&mut live, 2).unwrap();
    let publication = f.disk.log.clone();

    // canonical effects are durable, but the log still contains the strict insert
    live.subject.finalize(&id(2));
    f.disk.canonical = Some((true, live.subject.canonical.clone()));
    drop(live);

    assert!(f.reopen().is_err());
    assert_eq!(f.disk.log, publication);
}

#[test]
fn cancelled_commit_requires_reopening() {
    for table in [false, true] {
        let mut f = Fixture::new();
        let mut live = f.chain(table);
        f.insert(&mut live, 2, 1).unwrap();
        f.commit(&mut live, 2).unwrap();
        f.insert(&mut live, 3, 2).unwrap();
        let publication = f.disk.log.clone();

        // the commit waits for the committed file
        assert!(matches!(live.chain.commit(id(3)), Ok(Some(Effect::ReadCommitted))));
        assert!(f.rollback(&mut live, 3).is_err());
        live.chain.cancel();

        assert!(live.chain.register(id(4)).is_err());
        assert!(f.commit(&mut live, 3).is_err());
        assert!(f.rollback(&mut live, 3).is_err());
        assert!(f.finalize(&mut live, 3).is_err());
        assert!(try_count(&live, 4).is_err());
        assert_eq!(f.disk.log, publication);
        drop(live);
        let live = f.reopen().unwrap();
        assert_eq!(count(&live, 4), 1);
    }
}

#[test]
fn stalled_handlers_do_not_exclude_earlier_commit() {
    for table in [false, true] {
        let mut f = Fixture::new();
        let mut live = f.chain(table);
        f.insert(&mut live, 2, 1).unwrap();
        // the log has recorded the scalar request, and its handler has not run
        let (key, value) = row_of(table, 2);
        let mutation = f.begin_put(&mut live, 3, &key, &Value::Scalar(value.clone())).unwrap();
        f.commit(&mut live, 2).unwrap();
        let record = MutationRecord::Put(path("/insert"), literal(&key), value);
        f.complete(&mut live, 3, mutation, &record).unwrap();
        f.commit(&mut live, 3).unwrap();
        drop(live);
        let live = f.reopen().unwrap();
        assert_eq!(count(&live, 4), 2);
    }
}

#[test]
fn same_transaction_keeps_replay_order_and_cancellation_preserves_failure() {
    for capture in [false, true] {
        let mut f = Fixture::new();
        let mut live = f.chain(false);
        // stop before the capture is recorded, or before the selected handler runs
        let argument = if capture { Argument::Collection } else { Argument::Scalar(literal("[1]")) };
        let (first, task) = route("/insert")
            .unwrap()
            .put(&mut live.chain, id(2), literal("null"), argument)
            .unwrap()
            .unwrap();
        assert_eq!(matches!(task, Task::Identify), capture);
        assert!(f.insert(&mut live, 2, 2).is_err());
        assert!(f.commit(&mut live, 2).is_err());
        assert!(f.rollback(&mut live, 2).is_err());
        assert!(f.finalize(&mut live, 2).is_err());
        live.chain.abandon(first);

        assert!(f.commit(&mut live, 2).is_err());
        assert!(try_count(&live, 2).is_err());
        f.rollback(&mut live, 2).unwrap();
        assert_eq!(count(&live, 3), 0);
        drop(live);
        let live = f.reopen().unwrap();
        assert_eq!(count(&live, 4), 0);
    }
}

#[test]
fn unfinished_later_requests_do_not_exclude_earlier_decisions() {
    for table in [false, true] {
        let mut f = Fixture::new();
        let mut live = f.chain(table);
        f.insert(&mut live, 2, 1).unwrap();
        let (key, value) = row_of(table, 2);
        let later = f.begin_put(&mut live, 3, &key, &Value::Scalar(value)).unwrap();
        f.commit(&mut live, 2).unwrap();
        f.finalize(&mut live, 2).unwrap();
        live.chain.abandon(later);
        f.rollback(&mut live, 3).unwrap();
        assert_eq!(count(&live, 4), 1);
        drop(live);
        let live = f.reopen().unwrap();
        assert_eq!(count(&live, 4), 1);
    }
}

#[test]
fn reads_wait_for_pending_commit_without_blocking_lifecycle() {
    let mut f = Fixture::new();
    let mut live = f.chain(false);
    f.insert(&mut live, 2, 1).unwrap();
    // the observation is admitted, and the subject lets it wait
    live.chain.readable(&id(3)).unwrap();
    f.commit(&mut live, 2).unwrap();
    assert_eq!(count(&live, 3), 1);
}

#[test]
fn cutoff_preserves_future_commits_and_discards_pending() {
    let mut f = Fixture::new();
    let mut live = f.chain(true);
    f.insert(&mut live, 2, 1).unwrap();
    f.commit(&mut live, 2).unwrap();
    f.insert(&mut live, 4, 2).unwrap();
    f.commit(&mut live, 4).unwrap();
    f.insert(&mut live, 3, 3).unwrap();
    f.finalize(&mut live, 3).unwrap();
    assert!(try_count(&live, 3).is_err());
    assert_eq!(count(&live, 5), 2);
    drop(live);
    let live = f.reopen().unwrap();
    assert_eq!(count(&live, 5), 2);
}

#[test]
fn creation_and_loading_are_distinct_and_frontier_conflicts_fail_closed() {
    let mut f = Fixture::new();
    assert!(f.reopen().is_err());
    let mut live = f.chain(false);
    assert!(f.create(Subject::new(false, BTreeSet::new()), TxnTaskQueue::new(64)).is_err());
    f.insert(&mut live, 2, 1).unwrap();
    f.commit(&mut live, 2).unwrap();
    let mut committed = f.disk.read_log().unwrap();
    committed.frontier = Some(id(2));
    f.disk.write_log(&committed).unwrap();
    drop(live);
    assert!(f.reopen().is_err());
}

#[test]
fn scalar_writes_are_batched_and_read_only_commit_does_not_write_wal() {
    let mut f = Fixture::new();
    let mut live = f.chain(true);
    live.chain.register(id(2)).unwrap();
    let initial = f.disk.log.clone();
    for key in 0..32 {
        f.insert(&mut live, 2, key).unwrap();
    }
    assert_eq!(f.disk.log, initial, "scalar capture must not write the WAL");
    assert!(f.disk.values.is_empty(), "scalar capture must not allocate files");
    f.commit(&mut live, 2).unwrap();
    let committed = f.disk.read_log().unwrap();
    assert_eq!(committed.block.mutations.len(), 1);
    assert_eq!(count(&live, 3), 32);
    let publication = f.disk.log.clone();
    f.commit(&mut live, 3).unwrap();
    assert_eq!(f.disk.log, publication);
    drop(live);
    let live = f.reopen().unwrap();
    assert_eq!(count(&live, 4), 32);
}

#[test]
fn observations_do_not_register_and_unseen_read_only_decisions_are_deterministic() {
    let mut f = Fixture::new();
    let mut live = f.chain(false);
    for n in 2..20 {
        assert_eq!(count(&live, n), 0);
    }
    live.chain.readable(&id(20)).unwrap();
    live.chain.queue().validate_fresh().unwrap();
    let before = f.disk.log.clone();
    f.commit(&mut live, 21).unwrap();
    f.commit(&mut live, 21).unwrap();
    assert!(f.rollback(&mut live, 21).is_err());
    f.rollback(&mut live, 22).unwrap();
    f.rollback(&mut live, 22).unwrap();
    assert!(f.commit(&mut live, 22).is_err());
    assert_eq!(f.disk.log, before);
    assert!(live.chain.queue().readable(&id(22)).is_err());
    f.finalize(&mut live, 22).unwrap();
    assert!(live.chain.queue().readable(&id(21)).is_err());
    f.insert(&mut live, 23, 1).unwrap();
    f.commit(&mut live, 23).unwrap();
}

#[test]
fn ordered_put_delete_batch_replays_exactly() {
    let mut f = Fixture::new();
    let mut live = f.chain(true);
    f.insert(&mut live, 2, 1).unwrap();
    f.delete(&mut live, 2, 1).unwrap();
    f.insert(&mut live, 2, 1).unwrap();
    f.commit(&mut live, 2).unwrap();
    drop(live);
    let live = f.reopen().unwrap();
    assert_eq!(count(&live, 4), 1);
}

#[test]
fn reordered_views_fail_closed_on_capture() {
    let mut f = Fixture::new();
    let reversed = Native { table: false, rows: vec![6, 5] };
    let error = f.disk.capture(&Value::Collection(reversed)).unwrap_err();
    assert!(error.message().contains("checksum mismatch"));
    f.disk.write_log(&ChainFile::default()).unwrap();
    f.disk.reclaim().unwrap();
    assert!(f.disk.values.is_empty());
}

#[test]
fn native_references_are_shared_and_corrupt_captures_are_not_replaced() {
    for table in [false, true] {
        let mut f = Fixture::new();
        let source = || Value::Collection(Native::empty(table));
        let first = f.disk.capture(&source()).unwrap();
        let second = f.disk.capture(&source()).unwrap();
        let name = reference(&first).unwrap().unwrap().name.clone();
        assert_eq!(reference(&second).unwrap().unwrap().name, name);
        assert_eq!(f.disk.values.len(), 1);
        let records = vec![MutationRecord::Put(path("/"), literal("null"), first.clone()); 2];
        f.disk.sync(&records).unwrap();
        assert!(f.disk.values[&name].synchronized);
        for n in [2, 3] {
            f.disk.write_records(id(n), records.clone());
        }
        f.disk.retain_records(&[id(3)]);
        f.disk.reclaim().unwrap();
        assert_eq!(f.disk.values.len(), 1);
        assert_eq!(f.disk.read_records(id(3)).len(), 2);
        assert!(matches!(f.disk.resolve_value(second), Ok(Resolved::Collection(_))));
        f.disk.values.get_mut(&name).unwrap().rows = Some(vec![1]);
        let error = f.disk.capture(&source()).unwrap_err();
        assert!(error.message().contains("checksum mismatch"));
        assert!(f.disk.values.contains_key(&name));

        f.disk.write_log(&ChainFile::default()).unwrap();
        f.disk.reclaim().unwrap();
        assert!(f.disk.values.is_empty());

        // An interrupted capture may leave an empty directory. Never fill it in on reuse.
        f.disk.values.insert(name.clone(), Stored { table, rows: None, synchronized: false });
        assert!(f.disk.capture(&source()).is_err());
        assert!(f.disk.values[&name].rows.is_none());
        assert_eq!(f.disk.values[&name].table, table);
        f.disk.write_log(&ChainFile::default()).unwrap();
        f.disk.reclaim().unwrap();
        assert!(f.disk.values.is_empty());
    }
}

#[test]
fn unsupported_collection_references_fail_before_replay() {
    let mut f = Fixture::new();
    let _live = f.chain(false);
    let value = f.disk.capture(&Value::Collection(Native::empty(false))).unwrap();
    let found = reference(&value).unwrap().unwrap().clone();
    let get = |name: &str, class: &SubjectPath, schema: &str| {
        Scalar::Get(CollectionRef {
            name: name.to_string(),
            path: class.clone(),
            schema: schema.to_string(),
        })
    };
    let invalid = [
        Scalar::Ref("$literal".to_string()),
        Scalar::Ref("/state/collection/btree".to_string()),
        get("short", &found.path, &found.schema),
        get(&"g".repeat(64), &found.path, &found.schema),
        get(&found.name, &path("/state/collection/tensor"), &found.schema),
        get(&found.name, &found.path, "null"),
        get(&"0".repeat(64), &found.path, &found.schema),
    ];
    for value in invalid {
        assert!(f.disk.capture(&Value::Scalar(value.clone())).is_err());
        assert!(f.disk.resolve_value(value).is_err());
    }
    let put = |value: Scalar| MutationRecord::Put(path("/insert"), literal("null"), value);
    let records = vec![put(value.clone()), put(value.clone())];
    f.disk.sync(&records).unwrap();
    f.disk.write_records(id(2), records);
    f.disk.write_records(id(3), vec![put(value.clone())]);
    f.disk.retain_records(&[id(2), id(3)]);
    let recovered = f.load(None, TxnTaskQueue::new(64), &mut |original| {
        assert_eq!(original, id(2));
        Err(delegated("shared references validated"))
    });
    assert!(recovered.err().unwrap().message().contains("shared references validated"));

    // Replace the later transaction with a malformed reference. Validation must finish
    // across all transactions before any capability is requested.
    f.disk.write_records(id(3), vec![put(get(&found.name, &found.path, "null"))]);
    f.disk.retain_records(&[id(2), id(3)]);
    assert!(f.load(None, TxnTaskQueue::new(64), &mut none).is_err());
    assert!(f.disk.log.is_some());
}

#[test]
fn native_collection_values_are_copied_and_verified() {
    for table in [false, true] {
        let mut f = Fixture::new();
        let source = Native { table, rows: vec![9] };
        let value = f.disk.capture(&Value::Collection(source.clone())).unwrap();
        let again = f.disk.capture(&Value::Collection(source)).unwrap();
        let found = reference(&value).unwrap().unwrap().clone();
        assert_eq!(reference(&again).unwrap().unwrap().name, found.name);
        assert_eq!(f.disk.values.len(), 1);

        let records = vec![MutationRecord::Put(path("/"), literal("null"), value.clone())];
        f.disk.sync(&records).unwrap();
        f.disk.write_records(id(2), records);
        let mut records = f.disk.read_records(id(2));
        let MutationRecord::Put(_, _, value) = records.remove(0) else {
            panic!("expected PUT");
        };
        let Ok(Resolved::Collection(copy)) = f.disk.resolve_value(value.clone()) else {
            panic!("expected collection");
        };
        assert_eq!(f.disk.values[&copy.name].rows.as_ref().unwrap().len(), 1);
        f.disk.values.get_mut(&copy.name).unwrap().rows = Some(vec![9, 10]);
        let orphan = identity(&[7; 32]);
        f.disk.values.insert(
            orphan.clone(),
            Stored { table, rows: Some(Vec::new()), synchronized: false },
        );
        let publication = f.disk.log.clone();
        // changed native rows must fail validation
        assert!(f.disk.resolve_value(value.clone()).is_err());
        f.disk.retain_records(&[id(2)]);
        // validate native values before requesting replay capabilities
        let subject = Subject::new(table, BTreeSet::new());
        assert!(f.load(Some(subject), TxnTaskQueue::new(64), &mut none).is_err());
        assert!(f.disk.values.contains_key(&orphan));
        assert_eq!(f.disk.log, publication);
        f.disk.values.remove(&found.name);
        assert!(f.disk.resolve_value(value).is_err());
    }
}

#[test]
fn failed_collection_arguments_are_reclaimed_on_load() {
    let mut f = Fixture::new();
    let mut live = f.chain(false);
    let source = || Value::Collection(Native::empty(false));
    assert!(f.put(&mut live, 3, "null", source()).is_err());
    let publication = f.disk.log.clone();
    assert!(f.put(&mut live, 2, "null", source()).is_err());
    assert_eq!(f.disk.values.len(), 1);
    assert!(f.commit(&mut live, 2).is_err());
    f.rollback(&mut live, 4).unwrap();
    f.rollback(&mut live, 2).unwrap();
    assert_eq!(f.disk.log, publication);
    assert_eq!(f.disk.values.len(), 1);
    f.finalize(&mut live, 3).unwrap();
    assert_eq!(f.disk.values.len(), 1);
    drop(live);
    let reopened = f.reopen().unwrap();
    assert_eq!(count(&reopened, 5), 0);
    assert!(f.disk.values.is_empty());
}

#[test]
fn cleanup_failure_fails_load_without_changing_the_wal() {
    let mut f = Fixture::new();
    let mut live = f.chain(false);
    assert!(f.put(&mut live, 2, "null", Value::Collection(Native::empty(false))).is_err());
    let name = f.disk.values.keys().next().unwrap().clone();
    f.disk.obstructed = Some(name.clone());
    f.rollback(&mut live, 2).unwrap();
    f.finalize(&mut live, 2).unwrap();
    let publication = f.disk.log.clone();
    drop(live);
    assert!(f.load(None, TxnTaskQueue::new(64), &mut none).is_err());
    assert!(f.disk.values.contains_key(&name));
    assert_eq!(f.disk.log, publication);
    f.disk.obstructed = None;
    f.reopen().unwrap();
    assert!(f.disk.values.is_empty());
}

#[test]
fn published_transaction_is_not_overwritten() {
    let mut f = Fixture::new();
    let mut live = f.chain(false);
    // publication without a live decision receipt
    f.disk.write_records(id(2), vec![MutationRecord::Delete(path("/"), literal("null"))]);
    let original = f.disk.log.clone();
    f.insert(&mut live, 2, 1).unwrap();
    let error = f.commit(&mut live, 2).unwrap_err();
    assert!(error.message().contains("already published"));
    assert_eq!(f.disk.log, original);
    assert!(live.chain.register(id(3)).is_err());
}

#[test]
fn collection_reclamation_preserves_the_committed_file_and_published_captures() {
    let mut f = Fixture::new();
    let _live = f.chain(false);
    for name in ["100-2", "committed.chain_block"] {
        let stored = Stored { table: false, rows: None, synchronized: false };
        f.disk.values.insert(name.to_string(), stored);
    }
    let value = f.disk.capture(&Value::Collection(Native::empty(false))).unwrap();
    let name = reference(&value).unwrap().unwrap().name.clone();
    f.disk.write_records(id(4), vec![MutationRecord::Put(path("/"), literal("null"), value)]);
    f.disk.reclaim().unwrap();
    assert_eq!(f.disk.values.len(), 1);
    assert!(f.disk.values.contains_key(&name));
    assert!(f.disk.log.is_some());
}

#[test]
fn sync_rejects_blocks_outside_its_publication_contract() {
    for case in 0..3 {
        let mut f = Fixture::new();
        let live = f.chain(false);
        let mut committed = ChainFile::default();
        let records = vec![MutationRecord::Delete(path("/"), literal("null"))];
        committed.block.mutations.insert(id(2), records);
        match case {
            0 => committed.block.previous_hash = [1; 32],
            1 => committed.frontier = Some(id(2)),
            2 => {
                committed.block.mutations.insert(id(2), Vec::new());
            }
            _ => unreachable!(),
        }
        f.disk.write_log(&committed).unwrap();
        drop(live);
        let original = f.disk.log.clone();
        // an invalid block must fail before replay
        assert!(f.load(None, TxnTaskQueue::new(64), &mut none).is_err());
        assert_eq!(f.disk.log, original);
    }
}

#[test]
fn large_payload_and_history_round_trip_without_fixed_quotas() {
    let mut f = Fixture::new();
    let value = "x".repeat(200_000);
    let mut committed = ChainFile::default();
    for n in 0..16384 {
        let records = vec![MutationRecord::Delete(path("/"), literal("null"))];
        committed.block.mutations.insert(id(n), records);
    }
    let records = vec![MutationRecord::Put(path("/"), literal("null"), literal(&value))];
    committed.block.mutations.insert(id(2), records);
    f.disk.write_log(&committed).unwrap();
    assert!(f.disk.log.as_ref().unwrap().len() > 1024 * 1024);
    let recovered = f.disk.read_log().unwrap();
    assert_eq!(recovered.block.mutations.len(), 16384);
    let mut records = recovered.block.mutations.get(&id(2)).unwrap().clone();
    let MutationRecord::Put(_, _, Scalar::Literal(actual)) = records.remove(0) else {
        panic!("expected string");
    };
    assert_eq!(actual, value);
}

#[test]
fn cumulative_history_saturates_and_finalization_recovers_capacity() {
    let mut f = Fixture::new();
    f.disk.admits = 1024;
    let mut live = f.chain(false);
    let mut failed = None;
    for n in 2..64 {
        f.insert(&mut live, n, n as u64).unwrap();
        if f.commit(&mut live, n).is_err() {
            failed = Some(n);
            break;
        }
    }
    let failed = failed.expect("retained history must reach the cache bound");
    assert!(failed > 2, "individual transactions fit");
    let before = f.disk.read_log().unwrap();
    assert_eq!(before.block.mutations.len(), (failed - 2) as usize);
    assert!(live.chain.register(id(100)).is_err());
    drop(live);

    let mut live = f.reopen().unwrap();
    f.finalize(&mut live, failed - 1).unwrap();
    f.insert(&mut live, failed, 100).unwrap();
    f.commit(&mut live, failed).unwrap();
    drop(live);
    let live = f.reopen().unwrap();
    assert_eq!(count(&live, 100), (failed - 1) as u64);
}

#[test]
fn storage_pressure_prevents_commit_without_discarding_evidence() {
    let mut f = Fixture::new();
    f.disk.admits = 1024;
    let mut live = f.create(Subject::new(false, BTreeSet::new()), TxnTaskQueue::new(128)).unwrap();
    for key in 0..128 {
        f.insert(&mut live, 2, key).unwrap();
    }
    assert!(f.commit(&mut live, 2).is_err());
    assert!(f.commit(&mut live, 2).is_err());
    assert!(f.disk.read_log().unwrap().block.mutations.is_empty());
    drop(live);
    let live = f.reopen().unwrap();
    assert_eq!(count(&live, 3), 0);
}

#[test]
fn collection_views_are_not_persistent_subjects() {
    let mut f = Fixture::new();
    let mut view = Subject::new(false, BTreeSet::new());
    view.persistent = false;
    assert!(f.create(view.clone(), TxnTaskQueue::new(64)).is_err());
    let live = f.chain(false);
    drop(live);
    assert!(f.load(Some(view), TxnTaskQueue::new(64), &mut |_| Ok(id(2))).is_err());
}

// ----- laws on concrete values -----

#[test]
fn creation_synchronizes_the_subject_before_it_publishes() {
    let mut f = Fixture::new();
    let live = f.chain(false);
    assert_eq!(f.performed, vec!["sync subject", "create"]);
    let file = f.disk.read_log().unwrap();
    assert!(file.frontier.is_none() && file.materializing.is_none());
    assert!(file.block.mutations.is_empty());
    assert_eq!(file.block.previous_hash, [0; 32]);
    drop(live);
    f.performed.clear();
    f.reopen().unwrap();
    assert_eq!(f.performed, vec!["read", "load subject", "list captures"]);
}

#[test]
fn commits_publish_before_they_become_visible() {
    let mut f = Fixture::new();
    let mut live = f.chain(false);
    // three requests, two of which store the same collection
    let native = Native { table: false, rows: vec![1] };
    for value in [
        Value::Collection(native.clone()),
        Value::Collection(native.clone()),
        Value::Scalar(literal("[3]")),
    ] {
        let mutation = f.begin_put(&mut live, 2, "null", &value).unwrap();
        assert!(live.chain.proceed(mutation, Outcome::Done).unwrap().is_none());
    }
    f.performed.clear();
    f.commit(&mut live, 2).unwrap();
    assert_eq!(f.performed, vec!["read", "sync capture", "publish", "commit subject"]);
    let records = f.disk.read_records(id(2));
    assert_eq!(records.len(), 3);
    let name = identity(&native.hash());
    for record in &records[..2] {
        assert_eq!(reference(record.value().unwrap()).unwrap().unwrap().name, name);
    }
    assert!(matches!(records[2].value(), Some(Scalar::Literal(text)) if text == "[3]"));
    assert!(f.disk.values[&name].synchronized);

    // a transaction without requests is left to the subject
    f.performed.clear();
    f.commit(&mut live, 3).unwrap();
    f.commit(&mut live, 3).unwrap();
    assert_eq!(f.performed, vec!["commit subject"]);
}

#[test]
fn finalization_publishes_its_intent_before_the_canonical_update() {
    let mut f = Fixture::new();
    let mut live = f.chain(false);
    f.insert(&mut live, 2, 1).unwrap();
    f.commit(&mut live, 2).unwrap();
    f.insert(&mut live, 4, 2).unwrap();
    f.commit(&mut live, 4).unwrap();
    f.performed.clear();
    f.finalize(&mut live, 3).unwrap();
    assert_eq!(
        f.performed,
        vec!["read", "publish", "finalize subject", "sync subject", "publish"]
    );
    let file = f.disk.read_log().unwrap();
    assert_eq!(file.frontier, Some(id(3)));
    assert!(file.materializing.is_none());
    assert_eq!(file.block.mutations.len(), 1);
    assert!(file.block.mutations.get(&id(4)).is_some());

    // no retained transaction lies between the two cutoffs
    let mut g = Fixture::new();
    let mut live = g.chain(false);
    g.insert(&mut live, 4, 2).unwrap();
    g.commit(&mut live, 4).unwrap();
    g.performed.clear();
    g.finalize(&mut live, 3).unwrap();
    assert_eq!(g.performed, vec!["read", "finalize subject", "publish"]);
    assert_eq!(g.disk.read_log().unwrap().block.mutations.len(), 1);

    // a repeated cutoff writes nothing
    g.performed.clear();
    g.finalize(&mut live, 2).unwrap();
    assert_eq!(g.performed, vec!["read"]);
}

#[test]
fn interrupted_finalization_is_refused_on_load() {
    let mut f = Fixture::new();
    let mut live = f.chain(false);
    f.insert(&mut live, 2, 1).unwrap();
    f.commit(&mut live, 2).unwrap();
    // stop once the intent is published
    let mut subject = Some(live.subject.clone());
    let effect = live.chain.finalize(id(2)).unwrap().unwrap();
    let reply = f.perform(effect, &mut subject, &mut none);
    let effect = live.chain.advance(reply).unwrap().unwrap();
    let reply = f.perform(effect, &mut subject, &mut none);
    assert!(matches!(live.chain.advance(reply), Ok(Some(Effect::FinalizeSubject(_)))));
    live.chain.cancel();
    assert!(matches!(live.chain.register(id(3)), Err(ChainError::Interrupted)));
    assert_eq!(f.disk.read_log().unwrap().materializing, Some(id(2)));
    drop(live);

    f.performed.clear();
    assert!(matches!(f.reopen(), Err(ChainError::RecoveryRequired)));
    assert_eq!(f.performed, vec!["read"]);
}

#[test]
fn unarmed_failures_do_not_interrupt() {
    let mut f = Fixture::new();
    let mut live = f.chain(false);
    assert!(matches!(live.chain.finalize(id(2)), Ok(Some(Effect::ReadCommitted))));
    assert!(matches!(
        live.chain.advance(Reply::Failed(delegated("unreadable"))),
        Err(ChainError::Delegated(ErrorKind::Internal, _))
    ));
    live.chain.register(id(3)).unwrap();
    assert!(matches!(live.chain.finalize(id(2)), Ok(Some(Effect::ReadCommitted))));
    assert!(matches!(live.chain.advance(Reply::Missing), Err(ChainError::MissingBlock)));
    assert!(matches!(live.chain.advance(Reply::Done), Err(ChainError::UnexpectedReply)));
    f.insert(&mut live, 3, 1).unwrap();
    f.commit(&mut live, 3).unwrap();
}

#[test]
fn errors_of_the_subject_keep_their_category() {
    let mut f = Fixture::new();
    let mut live = f.chain(false);
    let put = Request::Put(path("/insert"), literal("null"), Argument::Scalar(literal("[1]")));
    let (mutation, _) = live.chain.mutate(id(2), put).unwrap();
    let refused = ChainError::Delegated(ErrorKind::Unauthorized, "not allowed".to_string());
    let error = live.chain.proceed(mutation, Outcome::Failed(refused)).err().unwrap();
    assert_eq!(error.kind(), ErrorKind::Unauthorized);
    assert_eq!(error.message(), "not allowed");
    assert!(live.chain.rollback(id(2)).unwrap().is_some());
    let late = ChainError::Delegated(ErrorKind::Timeout, "too late".to_string());
    let error = live.chain.advance(Reply::Failed(late)).err().unwrap();
    assert_eq!(error.kind(), ErrorKind::Timeout);
    assert_eq!(error.message(), "too late");
}

#[test]
fn interrupted_materialization_is_reported_before_anything_else() {
    let mut f = Fixture::new();
    let live = f.chain(false);
    let mut committed = ChainFile::default();
    committed.materializing = Some(id(2));
    committed.block.previous_hash = [1; 32];
    committed.block.mutations.insert(id(2), Vec::new());
    f.disk.write_log(&committed).unwrap();
    drop(live);
    assert!(matches!(f.reopen(), Err(ChainError::RecoveryRequired)));
}

#[test]
fn missing_captures_fail_the_commit() {
    let mut f = Fixture::new();
    let mut live = f.chain(false);
    let value = Value::Collection(Native::empty(false));
    let mutation = f.begin_put(&mut live, 2, "null", &value).unwrap();
    assert!(live.chain.proceed(mutation, Outcome::Done).unwrap().is_none());
    f.disk.values.clear();
    let before = f.disk.log.clone();
    assert!(matches!(f.commit(&mut live, 2), Err(ChainError::MissingCollection)));
    assert_eq!(f.disk.log, before);
    assert!(matches!(live.chain.readable(&id(3)), Err(ChainError::Interrupted)));
}

#[test]
fn replay_preserves_order_and_rebuilds_receipts() {
    let mut f = Fixture::new();
    let mut live = f.chain(true);
    f.insert(&mut live, 1, 10).unwrap();
    f.commit(&mut live, 1).unwrap();
    f.finalize(&mut live, 1).unwrap();
    // committed out of order, replayed in order
    f.insert(&mut live, 5, 5).unwrap();
    f.delete(&mut live, 5, 5).unwrap();
    f.commit(&mut live, 5).unwrap();
    f.insert(&mut live, 3, 3).unwrap();
    f.commit(&mut live, 3).unwrap();
    drop(live);
    f.performed.clear();
    let mut requested = Vec::new();
    let mut live = f
        .load(None, TxnTaskQueue::new(1), &mut |id| {
            requested.push(id);
            Ok(id)
        })
        .unwrap();
    assert_eq!(requested, vec![id(3), id(5)]);
    assert_eq!(
        f.performed,
        vec![
            "read",
            "load subject",
            "initialize cutoff",
            "request transaction",
            "apply",
            "commit subject",
            "request transaction",
            "apply",
            "apply",
            "commit subject",
            "list captures",
        ]
    );
    assert_eq!(live.subject.cutoff, Some(order(&id(1))));
    assert_eq!(live.chain.queue().status(&id(3)), Some(Status::Committed));
    assert_eq!(live.chain.queue().status(&id(5)), Some(Status::Committed));
    assert_eq!(live.chain.queue().status(&id(1)), None);
    assert!(matches!(live.chain.readable(&id(1)), Err(ChainError::Outdated)));
    assert!(matches!(f.rollback(&mut live, 5), Err(ChainError::Committed)));
    assert_eq!(count(&live, 6), 2);
}

#[test]
fn captures_are_synchronized_in_ascending_order() {
    let mut f = Fixture::new();
    let mut live = f.chain(false);
    let mut names = Vec::new();
    for row in [1, 2, 3, 4, 2] {
        let native = Native { table: false, rows: vec![row] };
        names.push(identity(&native.hash()));
        let mutation =
            f.begin_put(&mut live, 2, "null", &Value::Collection(native)).unwrap();
        assert!(live.chain.proceed(mutation, Outcome::Done).unwrap().is_none());
    }
    names.sort();
    names.dedup();
    assert_eq!(names.len(), 4);
    let mut next = live.chain.commit(id(2)).unwrap();
    let mut synchronized = Vec::new();
    let mut subject = Some(live.subject.clone());
    while let Some(effect) = next {
        if let Effect::SyncCapture(name) = &effect {
            synchronized.push(name.clone());
        }
        let reply = f.perform(effect, &mut subject, &mut none);
        next = live.chain.advance(reply).unwrap();
    }
    assert_eq!(synchronized, names);
}

#[test]
fn successful_recoveries_perform_their_whole_script() {
    let mut f = Fixture::new();
    let mut live = f.chain(false);
    let native = Native { table: false, rows: vec![7] };
    let (class, schema) = (native.class(), native.schema());
    let begun = live.chain.restore_from(id(2), (&class, &schema), (&class, &schema)).unwrap();
    let mutation = f.prepare(&mut live, begun, &Value::Collection(native)).unwrap();
    assert!(live.chain.proceed(mutation, Outcome::Done).unwrap().is_none());
    f.commit(&mut live, 2).unwrap();
    let stored = Stored { table: false, rows: None, synchronized: false };
    f.disk.values.insert("orphan".to_string(), stored);
    let before = f.disk.log.clone();
    drop(live);
    f.performed.clear();
    let live = f.reopen().unwrap();
    assert_eq!(
        f.performed,
        vec![
            "read",
            "load subject",
            "resolve",
            "request transaction",
            "resolve",
            "apply",
            "commit subject",
            "list captures",
            "delete capture",
            "sync deleted",
        ]
    );
    assert_eq!(f.disk.log, before);
    assert_eq!(f.disk.values.len(), 1);
    assert_eq!(count(&live, 3), 1);
}

#[test]
fn restoration_is_recorded_and_replayed() {
    let mut f = Fixture::new();
    let mut live = f.chain(false);
    f.insert(&mut live, 2, 1).unwrap();
    f.commit(&mut live, 2).unwrap();
    let snapshot = Native { table: false, rows: vec![4, 5, 6] };
    let other = Native::empty(true);
    let (class, schema) = (snapshot.class(), snapshot.schema());
    assert!(matches!(
        live.chain.restore_from(id(3), (&class, &schema), (&other.class(), &other.schema())),
        Err(ChainError::SchemaMismatch)
    ));
    assert_eq!(live.chain.queue().status(&id(3)), None);
    let begun = live.chain.restore_from(id(3), (&class, &schema), (&class, &schema)).unwrap();
    let mutation = f.prepare(&mut live, begun, &Value::Collection(snapshot.clone())).unwrap();
    let value = Scalar::Get(CollectionRef {
        name: identity(&snapshot.hash()),
        path: class,
        schema,
    });
    f.complete(&mut live, 3, mutation, &MutationRecord::Restore(value)).unwrap();
    f.commit(&mut live, 3).unwrap();
    assert!(matches!(f.disk.read_records(id(3))[0], MutationRecord::Restore(_)));
    drop(live);
    f.performed.clear();
    let live = f.reopen().unwrap();
    assert_eq!(live.subject.visible(&id(4)), BTreeSet::from([4, 5, 6]));
    assert_eq!(f.performed.iter().filter(|label| **label == "resolve").count(), 2);
    assert_eq!(f.disk.values.len(), 1);
}

#[test]
fn unsupported_and_unexpected_values_fail_the_transaction() {
    let mut f = Fixture::new();
    let mut live = f.chain(false);
    let put = |argument| Request::Put(path("/insert"), literal("null"), argument);
    assert!(matches!(
        live.chain.mutate(id(2), put(Argument::Other)),
        Err(ChainError::UnsupportedValue)
    ));
    assert_eq!(live.chain.queue().status(&id(2)), Some(Status::Failed));
    assert!(matches!(
        live.chain.mutate(id(2), put(Argument::Scalar(literal("1")))),
        Err(ChainError::Failed)
    ));
    let (mutation, task) = live.chain.mutate(id(3), put(Argument::Collection)).unwrap();
    assert!(matches!(task, Task::Identify));
    assert!(matches!(
        live.chain.proceed(mutation, Outcome::Done),
        Err(ChainError::UnexpectedReply)
    ));
    assert_eq!(live.chain.queue().status(&id(3)), Some(Status::Failed));
    // an identity is the hash of a collection
    let (mutation, _) = live.chain.mutate(id(4), put(Argument::Collection)).unwrap();
    let outcome = Outcome::Identified {
        hash: vec![1, 2],
        path: path("/state/collection/btree"),
        schema: String::new(),
    };
    let (mutation, task) = live.chain.proceed(mutation, outcome).unwrap().unwrap();
    assert!(matches!(task, Task::Probe(name) if name == "0102"));
    assert!(matches!(
        live.chain.proceed(mutation, Outcome::Probed(true)),
        Err(ChainError::InvalidReference)
    ));
}

#[test]
fn handlers_offer_what_the_subject_offers() {
    let mut f = Fixture::new();
    let mut live = f.chain(false);
    let count = route("/count").unwrap();
    assert!(matches!(count.get(&live.chain, &id(2)), Some(Ok(()))));
    assert!(matches!(count.post(&live.chain, &id(2)), Some(Ok(()))));
    assert!(count.delete(&mut live.chain, id(2), literal("null")).is_none());
    assert!(route("/count")
        .unwrap()
        .put(&mut live.chain, id(2), literal("null"), Argument::Other)
        .is_none());
    let insert = route("/insert").unwrap();
    assert!(insert.get(&live.chain, &id(2)).is_none());
    assert!(insert.post(&live.chain, &id(2)).is_none());
    live.chain.queue().validate_fresh().unwrap();
}
