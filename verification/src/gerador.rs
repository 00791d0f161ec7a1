//! Modo gerador: roda dentro do container e injeta carga no relay.
//!
//! Cada thread mantém seu próprio socket e seu próprio ritmo. A numeração de
//! sequência é global ao gerador, então `(nome, seq)` identifica a mensagem
//! unicamente em todo o teste.

use vstd::arithmetic::div_mod::lemma_fundamental_div_mod;
use vstd::prelude::*;
use vstd::string::*;
use vstd::utf8::{encode_utf8, is_ascii_chars, is_char_boundary};

use crate::bytes::{
    lemma_ascii_um_byte, lemma_codificacao_concatenada, lemma_codificacao_injetiva,
};
use crate::config::Proto;
use crate::decimal::{digitos, lemma_digitos_sao_algarismos};
use crate::duracao::Duracao;
use crate::numerais::{escrever, escrito};
use crate::reais::Real;
use crate::texto::{
    decimal, decimal_com_sinal, inteiro_decimal, repetido, repetir,
};

verus! {

pub struct ArgsGerador {
    pub nome: String,
    pub proto: Proto,
    /// Destino no formato host:porta.
    pub alvo: String,
    /// Mensagens por segundo para este gerador.
    pub taxa: u64,
    pub threads: usize,
    /// Tamanho do frame syslog em bytes, sem o `\n` do TCP.
    pub tamanho: usize,
    pub duracao: Real,
    pub aquecimento: Real,
    /// 0 = ilimitado, usa apenas a duração.
    pub total: u64,
    /// Diretório onde o relatório JSON é gravado.
    pub saida: String,
}

pub struct RelatorioGerador {
    pub nome: String,
    pub proto: String,
    pub taxa_alvo: u64,
    pub threads: usize,
    pub tamanho_mensagem: usize,
    pub inicio_ns: i128,
    pub inicio_medicao_ns: i128,
    pub fim_ns: i128,
    pub enviadas_total: u64,
    pub enviadas_uteis: u64,
    pub bytes_enviados: u64,
    pub erros_envio: u64,
    pub taxa_real: Real,
}

// ---- Preparação ----

/// A parte da `i`-ésima de `n` threads num total: partes iguais, com o resto entre as primeiras.
pub open spec fn parte(total: u64, n: usize, i: int) -> int {
    total as int / n as int + if i < total as int % n as int {
        1int
    } else {
        0
    }
}

/// A soma das partes das `k` primeiras threads.
pub open spec fn soma_das_partes(total: u64, n: usize, k: int) -> int
    decreases k,
{
    if k <= 0 {
        0
    } else {
        soma_das_partes(total, n, k - 1) + parte(total, n, k - 1)
    }
}

proof fn lemma_soma_das_partes(total: u64, n: usize, k: int)
    requires
        n > 0,
        0 <= k <= n,
    ensures
        soma_das_partes(total, n, k) == k * (total as int / n as int) + if k < total as int
            % n as int {
            k
        } else {
            total as int % n as int
        },
    decreases k,
{
    let q = total as int / n as int;
    if k > 0 {
        lemma_soma_das_partes(total, n, k - 1);
        assert((k - 1) * q + q == k * q) by (nonlinear_arith);
    } else {
        assert(0 * q == 0) by (nonlinear_arith);
    }
}

/// As partes das threads somam o total, e nenhuma difere de outra em mais de um.
pub proof fn lei_partes(total: u64, n: usize)
    requires
        n > 0,
    ensures
        soma_das_partes(total, n, n as int) == total,
        forall|i: int, j: int|
            0 <= i < n && 0 <= j < n ==> #[trigger] parte(total, n, i) - #[trigger] parte(
                total,
                n,
                j,
            ) <= 1,
{
    lemma_soma_das_partes(total, n, n as int);
    lemma_fundamental_div_mod(total as int, n as int);
}

/// O ritmo e a cota de uma thread. `None` é sem limite; `Some(0)` é não enviar nada.
#[derive(Clone, Copy, Debug, PartialEq, Eq, Structural)]
pub struct Tarefa {
    pub taxa: Option<u64>,
    pub cota: Option<u64>,
}

/// Quantas das `n` threads enviam: com menos mensagens por segundo do que threads, só as
/// primeiras têm ritmo.
pub open spec fn ativas(taxa: u64, n: usize) -> usize {
    if 0 < taxa < n {
        taxa as usize
    } else {
        n
    }
}

/// O que cabe à `i`-ésima de `n` threads. A taxa e o total só deixam de limitar quando são zero no
/// gerador inteiro, nunca por uma parte ser zero; e o total fica todo com as threads que enviam.
pub open spec fn tarefa_da_thread(taxa: u64, total: u64, n: usize, i: int) -> Tarefa {
    Tarefa {
        taxa: if taxa == 0 {
            None
        } else {
            Some(parte(taxa, n, i) as u64)
        },
        cota: if total == 0 {
            None
        } else if i < ativas(taxa, n) {
            Some(parte(total, ativas(taxa, n), i) as u64)
        } else {
            Some(0)
        },
    }
}

/// O que um gerador precisa saber antes de começar a enviar.
pub struct Preparo {
    pub inicio_medicao_ns: i128,
    pub duracao: Duracao,
    pub tarefas: Vec<Tarefa>,
}

/// Se a duração pedida pode ser usada: é um tempo representável, ou não limita o teste.
pub open spec fn duracao_utilizavel(total: u64, duracao: Real) -> bool {
    (total > 0 && duracao.menor_ou_igual(Real::do_inteiro(0))) || duracao.cabe_em_duracao()
}

/// Se a duração pedida pode ser usada.
pub fn pode_usar_duracao(total: u64, duracao: Real) -> (r: bool)
    ensures
        r == duracao_utilizavel(total, duracao),
{
    (total > 0 && duracao.ate(Real::de_u64(0))) || Duracao::de_real(duracao).is_some()
}

/// O fim do aquecimento, em nanossegundos desde 1970. A soma é circular em 128 bits.
pub open spec fn fim_do_aquecimento(inicio_ns: i128, aquecimento: Real) -> i128 {
    inicio_ns.wrapping_add(
        aquecimento.produto(Real::do_inteiro(1_000_000_000)).truncado_i128(),
    )
}

/// Quantas threads o gerador usa.
pub open spec fn threads_usadas(threads: usize) -> usize {
    if threads < 1 {
        1
    } else {
        threads
    }
}

/// Prepara a execução: reparte a taxa e o total entre as threads e calcula o fim do aquecimento.
pub fn preparar(args: &ArgsGerador, inicio_ns: i128) -> (r: Preparo)
    requires
        duracao_utilizavel(args.total, args.duracao),
    ensures
        r.inicio_medicao_ns == fim_do_aquecimento(inicio_ns, args.aquecimento),
        args.total > 0 && args.duracao.menor_ou_igual(Real::do_inteiro(0)) ==> r.duracao.total()
            == u64::MAX * 1_000_000_000 + 999_999_999,
        !(args.total > 0 && args.duracao.menor_ou_igual(Real::do_inteiro(0)))
            ==> r.duracao.total() == args.duracao.nanos(),
        r.tarefas@.len() == threads_usadas(args.threads),
        forall|i: int|
            0 <= i < r.tarefas@.len() ==> #[trigger] r.tarefas@[i] == tarefa_da_thread(
                args.taxa,
                args.total,
                threads_usadas(args.threads),
                i,
            ),
{
    let threads: usize = if args.threads < 1 {
        1
    } else {
        args.threads
    };
    let aquecimento_ns: i128 = args.aquecimento.multiplicar(
        Real::de_u64(1_000_000_000),
    ).truncar_i128();
    let duracao = if args.total > 0 && args.duracao.ate(Real::de_u64(0)) {
        Duracao::maxima()
    } else {
        Duracao::de_real(args.duracao).unwrap()
    };
    Preparo {
        inicio_medicao_ns: inicio_ns.wrapping_add(aquecimento_ns),
        duracao,
        tarefas: repartir(args.taxa, args.total, threads),
    }
}

/// A parte da `i`-ésima thread.
fn calcular_parte(total: u64, n: usize, i: usize) -> (r: u64)
    requires
        i < n,
    ensures
        r == parte(total, n, i as int),
{
    let q: u64 = total / n as u64;
    let resto: u64 = total % n as u64;
    if (i as u64) < resto {
        proof {
            lemma_fundamental_div_mod(total as int, n as int);
            assert(n * q >= q) by (nonlinear_arith)
                requires
                    n >= 1,
                    q >= 0,
            ;
        }
        q + 1
    } else {
        q
    }
}

/// A tarefa da `i`-ésima thread.
fn criar_tarefa(taxa: u64, total: u64, n: usize, i: usize) -> (r: Tarefa)
    requires
        i < n,
    ensures
        r == tarefa_da_thread(taxa, total, n, i as int),
{
    let enviam: usize = if taxa > 0 && taxa < n as u64 {
        taxa as usize
    } else {
        n
    };
    Tarefa {
        taxa: if taxa == 0 {
            None
        } else {
            Some(calcular_parte(taxa, n, i))
        },
        cota: if total == 0 {
            None
        } else if i < enviam {
            Some(calcular_parte(total, enviam, i))
        } else {
            Some(0)
        },
    }
}

fn repartir(taxa: u64, total: u64, n: usize) -> (r: Vec<Tarefa>)
    ensures
        r@.len() == n,
        forall|i: int| 0 <= i < n ==> #[trigger] r@[i] == tarefa_da_thread(taxa, total, n, i),
{
    let mut r: Vec<Tarefa> = Vec::new();
    let mut i: usize = 0;
    while i < n
        invariant
            i <= n,
            r@.len() == i,
            forall|j: int| 0 <= j < i ==> #[trigger] r@[j] == tarefa_da_thread(taxa, total, n, j),
        decreases n - i,
    {
        r.push(criar_tarefa(taxa, total, n, i));
        i = i + 1;
    }
    r
}

// ---- Ritmo ----

/// O que uma thread enviou até aqui.
#[derive(Clone, Copy, Debug, PartialEq, Eq, Structural)]
pub struct Resultado {
    pub total: u64,
    pub uteis: u64,
    pub bytes: u64,
    pub erros: u64,
}

/// Quantas mensagens saem num lote antes de se olhar o relógio de novo.
pub const LOTE_MAXIMO: u64 = 1024;

/// O que a thread faz a seguir.
#[derive(Clone, Copy, Debug, PartialEq, Eq, Structural)]
pub enum Passo {
    Encerrar,
    /// Espera um pouco: está adiantada.
    Esperar,
    /// Envia até essa quantidade de mensagens.
    Enviar(u64),
}

/// O que houve com um envio.
#[derive(Clone, Copy, Debug, PartialEq, Eq, Structural)]
pub enum Desfecho {
    Enviado { bytes: u64 },
    Falhou,
}

/// A menor entre essa quantidade e o produto exato do tempo pelo ritmo.
fn limitar_ao_exato(aproximadas: u64, decorrido: Duracao, t: u64) -> (r: u64)
    ensures
        r == (if aproximadas * 1_000_000_000 <= decorrido.total() * t {
            aproximadas as int
        } else {
            decorrido.total() * t / 1_000_000_000
        }),
{
    proof {
        assert(0 <= decorrido.segundos * t <= u64::MAX * u64::MAX) by (nonlinear_arith)
            requires
                0 <= decorrido.segundos <= u64::MAX,
                0 <= t <= u64::MAX,
        ;
        assert(0 <= decorrido.nanos * t <= u32::MAX * u64::MAX) by (nonlinear_arith)
            requires
                0 <= decorrido.nanos <= u32::MAX,
                0 <= t <= u64::MAX,
        ;
        assert(decorrido.total() * t == decorrido.segundos * t * 1_000_000_000 + decorrido.nanos
            * t) by (nonlinear_arith)
            requires
                decorrido.total() == decorrido.segundos * 1_000_000_000 + decorrido.nanos,
        ;
    }
    let inteiras: u128 = decorrido.segundos as u128 * t as u128;
    let partidas: u128 = decorrido.nanos as u128 * t as u128;
    if inteiras >= aproximadas as u128 {
        return aproximadas;
    }
    let exatas: u128 = inteiras + partidas / 1_000_000_000;
    if aproximadas as u128 <= exatas {
        aproximadas
    } else {
        exatas as u64
    }
}

impl Tarefa {
    /// Se a cota já foi cumprida.
    pub open spec fn cumprida(self, res: Resultado) -> bool {
        self.cota matches Some(c) && res.total >= c
    }

    /// Quantas mensagens já deveriam ter saído a esta altura: o produto do tempo pelo ritmo, em
    /// ponto flutuante, mas nunca acima do produto exato, que o arredondamento poderia ultrapassar.
    pub open spec fn devidas(self, decorrido: Duracao) -> u64 {
        match self.taxa {
            Some(t) => {
                let aproximadas = decorrido.segundos_reais().produto(
                    Real::do_inteiro(t as int),
                ).truncado_u64();
                if aproximadas * 1_000_000_000 <= decorrido.total() * t {
                    aproximadas
                } else {
                    (decorrido.total() * t / 1_000_000_000) as u64
                }
            },
            None => u64::MAX,
        }
    }

    /// O passo seguinte.
    pub open spec fn passo(
        self,
        duracao: Duracao,
        res: Resultado,
        interrompida: bool,
        decorrido: Duracao,
    ) -> Passo {
        let devidas = self.devidas(decorrido);
        if interrompida || decorrido.total() >= duracao.total() || self.cumprida(res) {
            Passo::Encerrar
        } else if res.total >= devidas {
            Passo::Esperar
        } else if devidas - res.total < LOTE_MAXIMO {
            Passo::Enviar((devidas - res.total) as u64)
        } else {
            Passo::Enviar(LOTE_MAXIMO)
        }
    }

    /// Se a cota já foi cumprida; é olhado antes de cada mensagem do lote.
    pub fn esta_cumprida(&self, res: &Resultado) -> (r: bool)
        ensures
            r == self.cumprida(*res),
    {
        match self.cota {
            Some(c) => res.total >= c,
            None => false,
        }
    }

    /// Calcula quantas mensagens já deveriam ter saído.
    fn calcular_devidas(&self, decorrido: Duracao) -> (r: u64)
        ensures
            r == self.devidas(decorrido),
    {
        match self.taxa {
            Some(t) => {
                let aproximadas: u64 = decorrido.em_segundos().multiplicar(
                    Real::de_u64(t),
                ).truncar_u64();
                limitar_ao_exato(aproximadas, decorrido, t)
            },
            None => u64::MAX,
        }
    }

    /// Decide o passo seguinte da thread.
    pub fn planejar(
        &self,
        duracao: Duracao,
        res: &Resultado,
        interrompida: bool,
        decorrido: Duracao,
    ) -> (r: Passo)
        ensures
            r == self.passo(duracao, *res, interrompida, decorrido),
    {
        if interrompida || decorrido.alcanca(duracao) || self.esta_cumprida(res) {
            return Passo::Encerrar;
        }
        let devidas: u64 = self.calcular_devidas(decorrido);
        if res.total >= devidas {
            return Passo::Esperar;
        }
        let faltam: u64 = devidas - res.total;
        if faltam < LOTE_MAXIMO {
            Passo::Enviar(faltam)
        } else {
            Passo::Enviar(LOTE_MAXIMO)
        }
    }
}

impl Resultado {
    /// O resultado depois de um envio feito no instante `agora`. As contas são circulares em 64
    /// bits.
    pub open spec fn apos(self, d: Desfecho, agora: i128, inicio_medicao_ns: i128) -> Resultado {
        match d {
            Desfecho::Enviado { bytes } => Resultado {
                total: self.total.wrapping_add(1),
                bytes: self.bytes.wrapping_add(bytes),
                uteis: if agora >= inicio_medicao_ns {
                    self.uteis.wrapping_add(1)
                } else {
                    self.uteis
                },
                erros: self.erros,
            },
            Desfecho::Falhou => Resultado { erros: self.erros.wrapping_add(1), ..self },
        }
    }

    /// Nada enviado.
    pub fn novo() -> (r: Resultado)
        ensures
            r == (Resultado { total: 0, uteis: 0, bytes: 0, erros: 0 }),
    {
        Resultado { total: 0, uteis: 0, bytes: 0, erros: 0 }
    }

    /// O resultado de uma thread que não conseguiu abrir o seu canal.
    pub fn sem_canal() -> (r: Resultado)
        ensures
            r == (Resultado { total: 0, uteis: 0, bytes: 0, erros: 1 }),
    {
        Resultado { total: 0, uteis: 0, bytes: 0, erros: 1 }
    }

    /// Registra um envio e diz se é preciso reconectar: o UDP não tem conexão para refazer.
    pub fn registrar(&mut self, d: Desfecho, agora: i128, inicio_medicao_ns: i128, proto: Proto) -> (r:
        bool)
        ensures
            *final(self) == old(self).apos(d, agora, inicio_medicao_ns),
            r == (d is Falhou && proto == Proto::Tcp),
    {
        match d {
            Desfecho::Enviado { bytes } => {
                self.total = self.total.wrapping_add(1);
                self.bytes = self.bytes.wrapping_add(bytes);
                if agora >= inicio_medicao_ns {
                    self.uteis = self.uteis.wrapping_add(1);
                }
                false
            },
            Desfecho::Falhou => {
                self.erros = self.erros.wrapping_add(1);
                matches!(proto, Proto::Tcp)
            },
        }
    }
}

/// Um lote tem de uma a `LOTE_MAXIMO` mensagens, e não adianta a thread em relação ao seu ritmo.
pub proof fn lei_lote(
    t: Tarefa,
    duracao: Duracao,
    res: Resultado,
    interrompida: bool,
    decorrido: Duracao,
)
    ensures
        match t.passo(duracao, res, interrompida, decorrido) {
            Passo::Enviar(n) => 1 <= n <= LOTE_MAXIMO && res.total + n <= t.devidas(decorrido)
                && !t.cumprida(res) && !interrompida && decorrido.total() < duracao.total(),
            _ => true,
        },
{
}

/// O que uma thread acumula desses envios: o desfecho de cada um e o instante em que foi feito.
pub open spec fn acumulado(envios: Seq<(Desfecho, i128)>, inicio_medicao_ns: i128) -> Resultado
    decreases envios.len(),
{
    if envios.len() == 0 {
        Resultado { total: 0, uteis: 0, bytes: 0, erros: 0 }
    } else {
        acumulado(envios.drop_last(), inicio_medicao_ns).apos(
            envios.last().0,
            envios.last().1,
            inicio_medicao_ns,
        )
    }
}

/// Ao longo de toda a execução de uma thread, cada envio conta uma vez, como mensagem ou como
/// erro; as úteis são das enviadas; e a cota não é ultrapassada se só se envia enquanto ela não
/// está cumprida.
pub proof fn lei_execucao(t: Tarefa, envios: Seq<(Desfecho, i128)>, inicio_medicao_ns: i128)
    requires
        envios.len() <= u64::MAX,
        forall|k: int|
            0 <= k < envios.len() ==> !t.cumprida(
                acumulado(#[trigger] envios.take(k), inicio_medicao_ns),
            ),
    ensures
        ({
            let r = acumulado(envios, inicio_medicao_ns);
            &&& r.total + r.erros == envios.len()
            &&& r.uteis <= r.total
            &&& t.cota matches Some(c) ==> r.total <= c
        }),
    decreases envios.len(),
{
    if envios.len() > 0 {
        let antes = envios.drop_last();
        assert forall|k: int| 0 <= k < antes.len() implies !t.cumprida(
            acumulado(#[trigger] antes.take(k), inicio_medicao_ns),
        ) by {
            assert(antes.take(k) =~= envios.take(k));
        }
        lei_execucao(t, antes, inicio_medicao_ns);
        assert(envios.take(envios.len() - 1) =~= antes);
    }
}

/// Se cada mensagem enviada pôs no canal essa quantidade de bytes.
pub open spec fn todas_com_bytes(envios: Seq<(Desfecho, i128)>, bytes: u64) -> bool {
    forall|k: int|
        0 <= k < envios.len() && (#[trigger] envios[k]).0 is Enviado ==> envios[k].0->bytes == bytes
}

/// Quando toda mensagem enviada tem o mesmo tamanho, os bytes são o total de mensagens vezes ele, em
/// 64 bits.
pub proof fn lei_bytes_das_mensagens(
    envios: Seq<(Desfecho, i128)>,
    inicio_medicao_ns: i128,
    bytes: u64,
)
    requires
        envios.len() <= u64::MAX,
        todas_com_bytes(envios, bytes),
    ensures
        ({
            let r = acumulado(envios, inicio_medicao_ns);
            &&& r.bytes == (r.total * bytes) % 0x1_0000_0000_0000_0000
            &&& r.total * bytes <= u64::MAX ==> r.bytes == r.total * bytes
            &&& r.total <= envios.len()
        }),
    decreases envios.len(),
{
    let r = acumulado(envios, inicio_medicao_ns);
    assert(r.total * bytes >= 0) by (nonlinear_arith)
        requires
            r.total >= 0,
            bytes >= 0,
    ;
    if envios.len() == 0 {
        assert(0 * bytes == 0) by (nonlinear_arith);
    } else {
        let antes = envios.drop_last();
        assert(todas_com_bytes(antes, bytes)) by {
            assert forall|k: int| 0 <= k < antes.len() && (
            #[trigger] antes[k]).0 is Enviado implies antes[k].0->bytes == bytes by {
                assert(antes[k] == envios[k]);
            }
        }
        lei_bytes_das_mensagens(antes, inicio_medicao_ns, bytes);
        let a = acumulado(antes, inicio_medicao_ns);
        assert(envios[envios.len() - 1] == envios.last());
        assert((a.total + 1) * bytes == a.total * bytes + bytes) by (nonlinear_arith);
        assert(a.total * bytes >= 0) by (nonlinear_arith)
            requires
                a.total >= 0,
                bytes >= 0,
        ;
    }
}

/// Uma volta em que a thread enviou: o tempo decorrido que ela leu e os envios do lote.
pub struct Volta {
    pub decorrido: Duracao,
    pub envios: Seq<(Desfecho, i128)>,
}

/// Todos os envios dessas voltas, em ordem.
pub open spec fn envios_de(voltas: Seq<Volta>) -> Seq<(Desfecho, i128)>
    decreases voltas.len(),
{
    if voltas.len() == 0 {
        Seq::empty()
    } else {
        envios_de(voltas.drop_last()) + voltas.last().envios
    }
}

/// Se a thread cumpriu a tarefa em todas essas voltas: em cada uma o passo era enviar, o lote não
/// passou do tamanho dado, e a cota foi olhada antes de cada mensagem.
pub open spec fn seguiu_a_tarefa(
    t: Tarefa,
    duracao: Duracao,
    voltas: Seq<Volta>,
    inicio_medicao_ns: i128,
) -> bool
    decreases voltas.len(),
{
    voltas.len() > 0 ==> {
        let antes = envios_de(voltas.drop_last());
        let volta = voltas.last();
        &&& seguiu_a_tarefa(t, duracao, voltas.drop_last(), inicio_medicao_ns)
        &&& t.passo(
            duracao,
            acumulado(antes, inicio_medicao_ns),
            false,
            volta.decorrido,
        ) matches Passo::Enviar(n) && volta.envios.len() <= n
        &&& forall|k: int|
            0 <= k < volta.envios.len() ==> !t.cumprida(
                acumulado(antes + #[trigger] volta.envios.take(k), inicio_medicao_ns),
            )
    }
}

/// Se nenhuma dessas voltas passou desse instante.
pub open spec fn voltas_ate(voltas: Seq<Volta>, fim: Duracao) -> bool {
    forall|k: int| 0 <= k < voltas.len() ==> (#[trigger] voltas[k]).decorrido.total() <= fim.total()
}

/// Um lote soma ao total no máximo uma unidade por envio e respeita a cota.
proof fn lemma_lote(
    t: Tarefa,
    antes: Seq<(Desfecho, i128)>,
    lote: Seq<(Desfecho, i128)>,
    inicio_medicao_ns: i128,
)
    requires
        ({
            let r = acumulado(antes, inicio_medicao_ns);
            &&& r.uteis <= r.total
            &&& r.total + lote.len() <= u64::MAX
            &&& t.cota matches Some(c) ==> r.total <= c
        }),
        forall|k: int|
            0 <= k < lote.len() ==> !t.cumprida(
                acumulado(antes + #[trigger] lote.take(k), inicio_medicao_ns),
            ),
    ensures
        ({
            let r = acumulado(antes + lote, inicio_medicao_ns);
            &&& r.uteis <= r.total
            &&& r.total <= acumulado(antes, inicio_medicao_ns).total + lote.len()
            &&& t.cota matches Some(c) ==> r.total <= c
        }),
    decreases lote.len(),
{
    if lote.len() == 0 {
        assert(antes + lote =~= antes);
    } else {
        let menos = lote.drop_last();
        assert forall|k: int| 0 <= k < menos.len() implies !t.cumprida(
            acumulado(antes + #[trigger] menos.take(k), inicio_medicao_ns),
        ) by {
            assert(menos.take(k) =~= lote.take(k));
        }
        lemma_lote(t, antes, menos, inicio_medicao_ns);
        assert(lote.take(lote.len() - 1) =~= menos);
        assert((antes + lote).drop_last() =~= antes + menos);
    }
}

/// As mensagens devidas não passam do produto do tempo pelo ritmo.
pub proof fn lei_devidas(t: Tarefa, decorrido: Duracao)
    ensures
        t.taxa matches Some(taxa) ==> t.devidas(decorrido) * 1_000_000_000 <= decorrido.total()
            * taxa,
{
    if let Some(taxa) = t.taxa {
        let exato = decorrido.total() * taxa;
        assert(exato >= 0) by (nonlinear_arith)
            requires
                exato == decorrido.total() * taxa,
                taxa >= 0,
        ;
        let aproximadas = decorrido.segundos_reais().produto(
            Real::do_inteiro(taxa as int),
        ).truncado_u64();
        if aproximadas * 1_000_000_000 > exato {
            assert(0 <= exato / 1_000_000_000 <= aproximadas);
        }
    }
}

/// Uma thread que segue a sua tarefa nunca passa da cota nem se adianta ao ritmo: até `fim` envia
/// no máximo a cota, e no máximo o tempo decorrido vezes a taxa.
pub proof fn lei_thread(
    t: Tarefa,
    duracao: Duracao,
    voltas: Seq<Volta>,
    inicio_medicao_ns: i128,
    fim: Duracao,
)
    requires
        seguiu_a_tarefa(t, duracao, voltas, inicio_medicao_ns),
        voltas_ate(voltas, fim),
    ensures
        ({
            let r = acumulado(envios_de(voltas), inicio_medicao_ns);
            &&& r.uteis <= r.total
            &&& t.cota matches Some(c) ==> r.total <= c
            &&& t.taxa matches Some(taxa) ==> r.total * 1_000_000_000 <= fim.total() * taxa
        }),
    decreases voltas.len(),
{
    if voltas.len() == 0 {
        if let Some(taxa) = t.taxa {
            assert(0 <= fim.total() * taxa) by (nonlinear_arith)
                requires
                    taxa >= 0,
            ;
        }
    } else {
        let volta = voltas.last();
        let antes = envios_de(voltas.drop_last());
        assert(voltas_ate(voltas.drop_last(), fim)) by {
            assert forall|k: int| 0 <= k < voltas.len() - 1 implies (
            #[trigger] voltas.drop_last()[k]).decorrido.total() <= fim.total() by {
                assert(voltas.drop_last()[k] == voltas[k]);
            }
        }
        lei_thread(t, duracao, voltas.drop_last(), inicio_medicao_ns, fim);
        lei_lote(t, duracao, acumulado(antes, inicio_medicao_ns), false, volta.decorrido);
        lemma_lote(t, antes, volta.envios, inicio_medicao_ns);
        if let Some(taxa) = t.taxa {
            lei_devidas(t, volta.decorrido);
            assert(volta.decorrido == voltas[voltas.len() - 1].decorrido);
            assert(volta.decorrido.total() * taxa <= fim.total() * taxa) by (nonlinear_arith)
                requires
                    volta.decorrido.total() <= fim.total(),
                    taxa >= 0,
            ;
        }
    }
}

// ---- Relatório ----

/// A soma dos resultados das threads; uma thread perdida conta como um erro. As contas são
/// circulares em 64 bits.
pub open spec fn soma_dos_resultados(rs: Seq<Option<Resultado>>) -> Resultado
    decreases rs.len(),
{
    if rs.len() == 0 {
        Resultado { total: 0, uteis: 0, bytes: 0, erros: 0 }
    } else {
        let antes = soma_dos_resultados(rs.drop_last());
        match rs.last() {
            Some(r) => Resultado {
                total: antes.total.wrapping_add(r.total),
                uteis: antes.uteis.wrapping_add(r.uteis),
                bytes: antes.bytes.wrapping_add(r.bytes),
                erros: antes.erros.wrapping_add(r.erros),
            },
            None => Resultado { erros: antes.erros.wrapping_add(1), ..antes },
        }
    }
}

/// Soma os resultados das threads.
pub fn reunir(rs: &Vec<Option<Resultado>>) -> (r: Resultado)
    ensures
        r == soma_dos_resultados(rs@),
{
    let mut s = Resultado::novo();
    let mut i: usize = 0;
    while i < rs.len()
        invariant
            i <= rs@.len(),
            s == soma_dos_resultados(rs@.take(i as int)),
        decreases rs@.len() - i,
    {
        proof {
            assert(rs@.take(i + 1).drop_last() =~= rs@.take(i as int));
        }
        match rs[i] {
            Some(r) => {
                s = Resultado {
                    total: s.total.wrapping_add(r.total),
                    uteis: s.uteis.wrapping_add(r.uteis),
                    bytes: s.bytes.wrapping_add(r.bytes),
                    erros: s.erros.wrapping_add(r.erros),
                };
            },
            None => {
                s.erros = s.erros.wrapping_add(1);
            },
        }
        i = i + 1;
    }
    proof {
        assert(rs@.take(rs@.len() as int) =~= rs@);
    }
    s
}

/// Se esse é um resultado possível de uma thread que, até `fim`, seguiu a sua tarefa ou não
/// conseguiu abrir o seu canal.
pub open spec fn resultado_da_tarefa(
    t: Tarefa,
    duracao: Duracao,
    r: Resultado,
    inicio_medicao_ns: i128,
    fim: Duracao,
) -> bool {
    ||| r == Resultado { total: 0, uteis: 0, bytes: 0, erros: 1 }
    ||| exists|voltas: Seq<Volta>|
        #![trigger envios_de(voltas)]
        seguiu_a_tarefa(t, duracao, voltas, inicio_medicao_ns) && voltas_ate(voltas, fim) && r
            == acumulado(envios_de(voltas), inicio_medicao_ns)
}

/// A soma das cotas das `k` primeiras threads.
pub open spec fn soma_das_cotas(taxa: u64, total: u64, n: usize, k: int) -> int
    decreases k,
{
    if k <= 0 {
        0
    } else {
        soma_das_cotas(taxa, total, n, k - 1) + tarefa_da_thread(
            taxa,
            total,
            n,
            k - 1,
        ).cota->0
    }
}

proof fn lemma_parte_cabe(total: u64, n: usize, i: int)
    requires
        0 <= i < n,
    ensures
        0 <= parte(total, n, i) <= total,
        parte(total, n, i) as u64 == parte(total, n, i),
{
    let q = total as int / n as int;
    lemma_fundamental_div_mod(total as int, n as int);
    assert(n * q >= q) by (nonlinear_arith)
        requires
            n >= 1,
            q >= 0,
    ;
    assert(q >= 0 && total as int % n as int >= 0);
}

proof fn lemma_soma_das_cotas(taxa: u64, total: u64, n: usize, k: int)
    requires
        total > 0,
        0 <= k <= n,
    ensures
        soma_das_cotas(taxa, total, n, k) == soma_das_partes(
            total,
            ativas(taxa, n),
            if k < ativas(taxa, n) {
                k
            } else {
                ativas(taxa, n) as int
            },
        ),
    decreases k,
{
    if k > 0 {
        lemma_soma_das_cotas(taxa, total, n, k - 1);
        if k - 1 < ativas(taxa, n) {
            lemma_parte_cabe(total, ativas(taxa, n), k - 1);
        }
    }
}

/// As cotas das threads somam o total do gerador.
pub proof fn lei_cotas(taxa: u64, total: u64, n: usize)
    requires
        n > 0,
        total > 0,
    ensures
        soma_das_cotas(taxa, total, n, n as int) == total,
        forall|i: int|
            0 <= i < n ==> (#[trigger] tarefa_da_thread(taxa, total, n, i)).cota is Some,
{
    lemma_soma_das_cotas(taxa, total, n, n as int);
    lei_partes(total, ativas(taxa, n));
}

/// Nenhuma thread fica presa: a que tem mensagens a enviar tem ritmo, ou não tem limite de ritmo.
pub proof fn lei_quem_tem_cota_tem_ritmo(taxa: u64, total: u64, n: usize, i: int)
    requires
        0 <= i < n,
    ensures
        ({
            let t = tarefa_da_thread(taxa, total, n, i);
            t.cota is Some && t.cota->0 > 0 && t.taxa is Some ==> t.taxa->0 > 0
        }),
{
    if 0 < taxa < n {
        assert(taxa as int / n as int == 0 && taxa as int % n as int == taxa) by (nonlinear_arith)
            requires
                0 <= taxa < n,
        ;
    } else if taxa > 0 {
        assert(taxa as int / n as int >= 1) by (nonlinear_arith)
            requires
                taxa >= n,
                n >= 1,
        ;
        lemma_parte_cabe(taxa, n, i);
    }
    if taxa > 0 {
        lemma_parte_cabe(taxa, n, i);
    }
}

/// A soma do que as `k` primeiras threads deveriam ter enviado a esta altura.
pub open spec fn soma_das_devidas(
    taxa: u64,
    total: u64,
    n: usize,
    k: int,
    decorrido: Duracao,
) -> int
    decreases k,
{
    if k <= 0 {
        0
    } else {
        soma_das_devidas(taxa, total, n, k - 1, decorrido) + tarefa_da_thread(
            taxa,
            total,
            n,
            k - 1,
        ).devidas(decorrido)
    }
}

proof fn lemma_soma_das_devidas(taxa: u64, total: u64, n: usize, k: int, decorrido: Duracao)
    requires
        taxa > 0,
        0 <= k <= n,
    ensures
        soma_das_devidas(taxa, total, n, k, decorrido) * 1_000_000_000 <= decorrido.total()
            * soma_das_partes(taxa, n, k),
    decreases k,
{
    let f = decorrido.total() as int;
    if k == 0 {
        assert(f * 0 == 0) by (nonlinear_arith);
    } else {
        lemma_soma_das_devidas(taxa, total, n, k - 1, decorrido);
        lemma_parte_cabe(taxa, n, k - 1);
        lei_devidas(tarefa_da_thread(taxa, total, n, k - 1), decorrido);
        let a = soma_das_partes(taxa, n, k - 1);
        let p = parte(taxa, n, k - 1);
        assert(f * (a + p) == f * a + f * p) by (nonlinear_arith);
    }
}

/// Com uma taxa, as threads juntas nunca devem mais do que ela vezes o tempo decorrido.
pub proof fn lei_devidas_das_threads(taxa: u64, total: u64, n: usize, decorrido: Duracao)
    requires
        n > 0,
        taxa > 0,
    ensures
        soma_das_devidas(taxa, total, n, n as int, decorrido) * 1_000_000_000 <= decorrido.total()
            * taxa,
{
    lei_partes(taxa, n);
    lemma_soma_das_devidas(taxa, total, n, n as int, decorrido);
}

proof fn lemma_soma_limitada(
    taxa: u64,
    total: u64,
    n: usize,
    rs: Seq<Option<Resultado>>,
    fim: Duracao,
)
    requires
        rs.len() <= n,
        forall|i: int|
            0 <= i < rs.len() ==> dentro_da_tarefa(
                tarefa_da_thread(taxa, total, n, i),
                #[trigger] rs[i],
                fim,
            ),
        total > 0,
        soma_das_cotas(taxa, total, n, rs.len() as int) <= u64::MAX,
    ensures
        soma_dos_resultados(rs).total <= soma_das_cotas(taxa, total, n, rs.len() as int),
        soma_dos_resultados(rs).uteis <= soma_dos_resultados(rs).total,
    decreases rs.len(),
{
    if rs.len() > 0 {
        let k = rs.len() - 1;
        let antes = rs.drop_last();
        let t = tarefa_da_thread(taxa, total, n, k);
        assert(dentro_da_tarefa(t, rs[k], fim));
        assert forall|i: int| 0 <= i < antes.len() implies dentro_da_tarefa(
            tarefa_da_thread(taxa, total, n, i),
            #[trigger] antes[i],
            fim,
        ) by {
            assert(antes[i] == rs[i]);
        }
        lemma_soma_limitada(taxa, total, n, antes, fim);
    }
}

proof fn lemma_soma_no_ritmo(
    taxa: u64,
    total: u64,
    n: usize,
    rs: Seq<Option<Resultado>>,
    fim: Duracao,
)
    requires
        rs.len() <= n,
        forall|i: int|
            0 <= i < rs.len() ==> dentro_da_tarefa(
                tarefa_da_thread(taxa, total, n, i),
                #[trigger] rs[i],
                fim,
            ),
        taxa > 0,
    ensures
        soma_dos_resultados(rs).total * 1_000_000_000 <= fim.total() * soma_das_partes(
            taxa,
            n,
            rs.len() as int,
        ),
        fim.total() * soma_das_partes(taxa, n, rs.len() as int) / 1_000_000_000 <= u64::MAX
            ==> soma_dos_resultados(rs).uteis <= soma_dos_resultados(rs).total,
    decreases rs.len(),
{
    let f = fim.total() as int;
    if rs.len() == 0 {
        assert(f * 0 == 0) by (nonlinear_arith);
    } else {
        let k = rs.len() - 1;
        let antes = rs.drop_last();
        let t = tarefa_da_thread(taxa, total, n, k);
        assert(dentro_da_tarefa(t, rs[k], fim));
        assert forall|i: int| 0 <= i < antes.len() implies dentro_da_tarefa(
            tarefa_da_thread(taxa, total, n, i),
            #[trigger] antes[i],
            fim,
        ) by {
            assert(antes[i] == rs[i]);
        }
        lemma_soma_no_ritmo(taxa, total, n, antes, fim);
        lemma_parte_cabe(taxa, n, k);
        let a = soma_das_partes(taxa, n, k);
        let p = parte(taxa, n, k);
        assert(f * (a + p) == f * a + f * p && f * p >= 0) by (nonlinear_arith)
            requires
                f >= 0,
                p >= 0,
        ;
    }
}

/// O que uma thread que seguiu a sua tarefa pode ter enviado até `fim`; uma thread perdida não
/// conta mensagens.
spec fn dentro_da_tarefa(t: Tarefa, r: Option<Resultado>, fim: Duracao) -> bool {
    r matches Some(r) ==> {
        &&& r.uteis <= r.total
        &&& t.cota matches Some(c) ==> r.total <= c
        &&& t.taxa matches Some(taxa) ==> r.total * 1_000_000_000 <= fim.total() * taxa
    }
}

proof fn lemma_dentro_da_tarefa(
    t: Tarefa,
    duracao: Duracao,
    r: Resultado,
    inicio_medicao_ns: i128,
    fim: Duracao,
)
    requires
        resultado_da_tarefa(t, duracao, r, inicio_medicao_ns, fim),
    ensures
        dentro_da_tarefa(t, Some(r), fim),
{
    if r == (Resultado { total: 0, uteis: 0, bytes: 0, erros: 1 }) {
        if let Some(taxa) = t.taxa {
            assert(0 <= fim.total() * taxa) by (nonlinear_arith)
                requires
                    taxa >= 0,
            ;
        }
    } else {
        let voltas = choose|voltas: Seq<Volta>|
            #![trigger envios_de(voltas)]
            seguiu_a_tarefa(t, duracao, voltas, inicio_medicao_ns) && voltas_ate(voltas, fim) && r
                == acumulado(envios_de(voltas), inicio_medicao_ns);
        lei_thread(t, duracao, voltas, inicio_medicao_ns, fim);
    }
}

/// As threads juntas respeitam os limites do gerador. Com um total, nunca se envia mais do que
/// ele; com uma taxa, nunca mais do que ela vezes o tempo decorrido; e as mensagens úteis são das
/// enviadas, enquanto o limite couber em 64 bits.
pub proof fn lei_limites_do_gerador(
    taxa: u64,
    total: u64,
    n: usize,
    duracao: Duracao,
    resultados: Seq<Option<Resultado>>,
    inicio_medicao_ns: i128,
    fim: Duracao,
)
    requires
        n > 0,
        resultados.len() == n,
        forall|i: int|
            0 <= i < n ==> ((#[trigger] resultados[i]) matches Some(r) ==> resultado_da_tarefa(
                tarefa_da_thread(taxa, total, n, i),
                duracao,
                r,
                inicio_medicao_ns,
                fim,
            )),
    ensures
        ({
            let r = soma_dos_resultados(resultados);
            &&& total > 0 ==> r.total <= total && r.uteis <= r.total
            &&& taxa > 0 ==> r.total * 1_000_000_000 <= fim.total() * taxa
            &&& taxa > 0 && fim.total() * taxa / 1_000_000_000 <= u64::MAX ==> r.uteis <= r.total
        }),
{
    assert forall|i: int| 0 <= i < n implies dentro_da_tarefa(
        tarefa_da_thread(taxa, total, n, i),
        #[trigger] resultados[i],
        fim,
    ) by {
        if let Some(r) = resultados[i] {
            lemma_dentro_da_tarefa(
                tarefa_da_thread(taxa, total, n, i),
                duracao,
                r,
                inicio_medicao_ns,
                fim,
            );
        }
    }
    if total > 0 {
        lei_cotas(taxa, total, n);
        lemma_soma_limitada(taxa, total, n, resultados, fim);
    }
    if taxa > 0 {
        lei_partes(taxa, n);
        lemma_soma_no_ritmo(taxa, total, n, resultados, fim);
    }
}

/// As mensagens úteis por segundo desde o fim do aquecimento, ou zero se ele não terminou.
pub open spec fn taxa_medida(uteis: u64, inicio_medicao_ns: i128, fim_ns: i128) -> Real {
    let janela = Real::do_inteiro(fim_ns.wrapping_sub(inicio_medicao_ns) as int).quociente(
        Real::do_inteiro(1_000_000_000),
    );
    if Real::do_inteiro(0).menor(janela) {
        Real::do_inteiro(uteis as int).quociente(janela)
    } else {
        Real::do_inteiro(0)
    }
}

fn medir_taxa(uteis: u64, inicio_medicao_ns: i128, fim_ns: i128) -> (r: Real)
    ensures
        r == taxa_medida(uteis, inicio_medicao_ns, fim_ns),
{
    let janela = Real::de_i128(fim_ns.wrapping_sub(inicio_medicao_ns)).dividir(
        Real::de_u64(1_000_000_000),
    );
    if Real::de_u64(0).abaixo(janela) {
        Real::de_u64(uteis).dividir(janela)
    } else {
        Real::de_u64(0)
    }
}

/// Monta o relatório do gerador a partir dos resultados das threads.
pub fn concluir(
    args: &ArgsGerador,
    preparo: &Preparo,
    inicio_ns: i128,
    fim_ns: i128,
    resultados: &Vec<Option<Resultado>>,
) -> (r: RelatorioGerador)
    ensures
        r.nome@ == args.nome@,
        r.proto@ == args.proto.escrito(),
        r.taxa_alvo == args.taxa,
        r.threads == threads_usadas(args.threads),
        r.tamanho_mensagem == args.tamanho,
        r.inicio_ns == inicio_ns,
        r.inicio_medicao_ns == preparo.inicio_medicao_ns,
        r.fim_ns == fim_ns,
        r.enviadas_total == soma_dos_resultados(resultados@).total,
        r.enviadas_uteis == soma_dos_resultados(resultados@).uteis,
        r.bytes_enviados == soma_dos_resultados(resultados@).bytes,
        r.erros_envio == soma_dos_resultados(resultados@).erros,
        r.taxa_real == taxa_medida(r.enviadas_uteis, preparo.inicio_medicao_ns, fim_ns),
{
    let soma = reunir(resultados);
    RelatorioGerador {
        nome: args.nome.clone(),
        proto: args.proto.texto().to_owned(),
        taxa_alvo: args.taxa,
        threads: if args.threads < 1 {
            1
        } else {
            args.threads
        },
        tamanho_mensagem: args.tamanho,
        inicio_ns,
        inicio_medicao_ns: preparo.inicio_medicao_ns,
        fim_ns,
        enviadas_total: soma.total,
        enviadas_uteis: soma.uteis,
        bytes_enviados: soma.bytes,
        erros_envio: soma.erros,
        taxa_real: medir_taxa(soma.uteis, preparo.inicio_medicao_ns, fim_ns),
    }
}

/// O nome do arquivo em que o gerador grava o seu relatório.
pub open spec fn nome_do_arquivo(nome: Seq<char>) -> Seq<char> {
    "gerador-"@ + nome + ".json"@
}

/// O nome do arquivo em que o gerador grava o seu relatório.
pub fn arquivo_do_relatorio(nome: &str) -> (r: String)
    ensures
        r@ == nome_do_arquivo(nome@),
{
    let mut r = "gerador-".to_owned();
    r.append(nome);
    r.append(".json");
    r
}

/// A linha com que o gerador se despede.
pub open spec fn despedida_escrita(r: RelatorioGerador, decorrido: Duracao) -> Seq<char> {
    "gerador "@ + r.nome@ + ": "@ + digitos(r.enviadas_total as nat) + " mensagens em "@ + escrito(
        decorrido.segundos_reais(),
        1,
        false,
    ) + "s ("@ + escrito(r.taxa_real, 0, false) + " msg/s), "@ + digitos(r.erros_envio as nat)
        + " erros"@
}

/// A linha com que o gerador se despede.
pub fn despedida(r: &RelatorioGerador, decorrido: Duracao) -> (t: String)
    ensures
        t@ == despedida_escrita(*r, decorrido),
{
    let mut t = "gerador ".to_owned();
    t.append(r.nome.as_str());
    t.append(": ");
    t.append(decimal(r.enviadas_total as u128).as_str());
    t.append(" mensagens em ");
    t.append(escrever(decorrido.em_segundos(), 1, false).as_str());
    t.append("s (");
    t.append(escrever(r.taxa_real, 0, false).as_str());
    t.append(" msg/s), ");
    t.append(decimal(r.erros_envio as u128).as_str());
    t.append(" erros");
    t
}

// ---- Quadros ----

/// O cabeçalho RFC5424 e o começo do corpo, até o campo anterior aos de medição.
pub open spec fn cabecalho(ts: Seq<char>, nome: Seq<char>) -> Seq<char> {
    "<134>1 "@ + ts + " "@ + nome + " hsb - - - "@
}

/// Os campos de medição, no início do corpo.
pub open spec fn medicao(nome: Seq<char>, seq: u64, agora: i128) -> Seq<char> {
    "g="@ + nome + " s="@ + digitos(seq as nat) + " t="@ + inteiro_decimal(agora as int)
}

/// O enchimento de `n` bytes que completa um quadro.
pub open spec fn enchimento_de(n: nat) -> Seq<char> {
    if n == 0 {
        Seq::empty()
    } else {
        seq![' '] + repetido('A', (n - 1) as nat)
    }
}

/// O quadro sem enchimento nem corte.
pub open spec fn quadro_cru(ts: Seq<char>, nome: Seq<char>, seq: u64, agora: i128) -> Seq<char> {
    cabecalho(ts, nome) + medicao(nome, seq, agora)
}

/// Se o quadro pode ser cortado no tamanho sem partir um caractere.
pub open spec fn cortavel(cru: Seq<char>, tamanho: usize) -> bool {
    encode_utf8(cru).len() >= tamanho ==> is_char_boundary(encode_utf8(cru), tamanho as int)
}

/// Se `q` é o quadro de exatamente `tamanho` bytes: completado com enchimento, ou cortado.
pub open spec fn eh_o_quadro(q: Seq<char>, cru: Seq<char>, tamanho: usize) -> bool {
    let n = encode_utf8(cru).len();
    if n < tamanho {
        q == cru + enchimento_de((tamanho - n) as nat)
    } else {
        encode_utf8(q) == encode_utf8(cru).take(tamanho as int)
    }
}

/// Um enchimento que basta para qualquer quadro do tamanho.
pub fn criar_enchimento(tamanho: usize) -> (r: String)
    ensures
        r@ == enchimento_de(tamanho as nat + 1),
{
    let mut r = " ".to_owned();
    r.append(repetir('A', tamanho).as_str());
    proof {
        reveal_strlit(" ");
        assert(r@ =~= enchimento_de(tamanho as nat + 1));
    }
    r
}

fn escrever_cru(ts: &str, nome: &str, seq: u64, agora: i128) -> (r: String)
    ensures
        r@ == quadro_cru(ts@, nome@, seq, agora),
{
    let mut r = "<134>1 ".to_owned();
    r.append(ts);
    r.append(" ");
    r.append(nome);
    r.append(" hsb - - - ");
    let mut m = "g=".to_owned();
    m.append(nome);
    m.append(" s=");
    m.append(decimal(seq as u128).as_str());
    m.append(" t=");
    m.append(decimal_com_sinal(agora).as_str());
    r.append(m.as_str());
    r
}

proof fn lemma_enchimento_ascii(n: nat)
    ensures
        is_ascii_chars(enchimento_de(n)),
        enchimento_de(n).len() == n,
{
}

/// Completa ou corta o quadro para que tenha exatamente `tamanho` bytes.
fn ajustar(cru: String, tamanho: usize, enchimento: &str) -> (r: String)
    requires
        cortavel(cru@, tamanho),
        enchimento@ == enchimento_de(tamanho as nat + 1),
    ensures
        eh_o_quadro(r@, cru@, tamanho),
        encode_utf8(r@).len() == tamanho,
{
    let n: usize = cru.as_str().as_bytes().len();
    if n < tamanho {
        let faltam: usize = tamanho - n;
        proof {
            lemma_enchimento_ascii(tamanho as nat + 1);
            lemma_ascii_um_byte(enchimento@, faltam as int);
        }
        let (parte, _) = enchimento.split_at(faltam);
        proof {
            assert(encode_utf8(enchimento@).subrange(0, faltam as int) =~= encode_utf8(
                enchimento@,
            ).take(faltam as int));
            lemma_codificacao_injetiva(parte@, enchimento@.take(faltam as int));
            assert(enchimento@.take(faltam as int) =~= enchimento_de(faltam as nat));
            lemma_codificacao_concatenada(cru@, parte@);
            lemma_enchimento_ascii(faltam as nat);
            lemma_ascii_um_byte(parte@, faltam as int);
        }
        let mut r = cru;
        r.append(parte);
        r
    } else {
        let (parte, _) = cru.as_str().split_at(tamanho);
        proof {
            assert(encode_utf8(cru@).subrange(0, tamanho as int) =~= encode_utf8(cru@).take(
                tamanho as int,
            ));
        }
        parte.to_owned()
    }
}

/// Monta um frame RFC5424 com exatamente `tamanho` bytes, com o carimbo `ts`.
///
/// Os campos de medição vêm no início do corpo para caberem no recorte
/// `%msg:1:90%` que o receptor grava.
pub fn montar_com(
    ts: &str,
    nome: &str,
    tamanho: usize,
    seq: u64,
    agora: i128,
    enchimento: &str,
) -> (r: String)
    requires
        cortavel(quadro_cru(ts@, nome@, seq, agora), tamanho),
        enchimento@ == enchimento_de(tamanho as nat + 1),
    ensures
        eh_o_quadro(r@, quadro_cru(ts@, nome@, seq, agora), tamanho),
        encode_utf8(r@).len() == tamanho,
{
    ajustar(escrever_cru(ts, nome, seq, agora), tamanho, enchimento)
}

/// Se o caractere pode estar num carimbo.
pub open spec fn do_carimbo(c: char) -> bool {
    '0' <= c <= '9' || c == '+' || c == '-' || c == ':' || c == '.' || c == 'T' || c == 'Z'
}

/// Se o texto tem o tamanho e os caracteres de um carimbo em RFC 3339 com microssegundos e `Z`.
pub open spec fn eh_carimbo(ts: Seq<char>) -> bool {
    &&& 27 <= ts.len() <= 30
    &&& forall|i: int| 0 <= i < ts.len() ==> do_carimbo(#[trigger] ts[i])
}

/// `chrono::Utc::now` e `chrono::DateTime::to_rfc3339_opts`: a hora corrente em RFC 3339, com
/// microssegundos e `Z`. São 27 caracteres nos anos de quatro algarismos e até 30 nos demais, que
/// levam sinal: algarismos, `+`, `-`, `:`, `.`, `T` e `Z`. Qual é a hora depende do relógio, que
/// não pode estar antes de 1970 nem depois do último ano que o `chrono` representa.
#[verifier::external_body]
fn carimbar() -> (r: String)
    ensures
        eh_carimbo(r@),
{
    chrono::Utc::now().to_rfc3339_opts(chrono::SecondsFormat::Micros, true)
}

/// Um carimbo é todo ASCII.
pub proof fn lemma_carimbo_ascii(ts: Seq<char>)
    requires
        eh_carimbo(ts),
    ensures
        is_ascii_chars(ts),
{
    assert forall|i: int| 0 <= i < ts.len() implies '\0' <= #[trigger] ts[i] <= '\u{7f}' by {
        assert(do_carimbo(ts[i]));
    }
}

proof fn lemma_ascii_concatenado(a: Seq<char>, b: Seq<char>)
    requires
        is_ascii_chars(a),
        is_ascii_chars(b),
    ensures
        is_ascii_chars(a + b),
{
    assert forall|i: int| 0 <= i < (a + b).len() implies '\0' <= #[trigger] (a + b)[i]
        <= '\u{7f}' by {
        if i < a.len() {
            assert((a + b)[i] == a[i]);
        } else {
            assert((a + b)[i] == b[i - a.len()]);
        }
    }
}

proof fn lemma_numeral_ascii(n: nat)
    ensures
        is_ascii_chars(digitos(n)),
{
    lemma_digitos_sao_algarismos(n);
    assert forall|i: int| 0 <= i < digitos(n).len() implies '\0' <= #[trigger] digitos(n)[i]
        <= '\u{7f}' by {
        assert('0' <= digitos(n)[i] <= '9');
    }
}

/// Com carimbo e nome ASCII o quadro é todo ASCII.
pub proof fn lemma_cru_ascii(ts: Seq<char>, nome: Seq<char>, seq: u64, agora: i128)
    requires
        is_ascii_chars(ts),
        is_ascii_chars(nome),
    ensures
        is_ascii_chars(cabecalho(ts, nome)),
        is_ascii_chars(medicao(nome, seq, agora)),
        is_ascii_chars(quadro_cru(ts, nome, seq, agora)),
{
    reveal_strlit("<134>1 ");
    reveal_strlit(" ");
    reveal_strlit(" hsb - - - ");
    reveal_strlit("g=");
    reveal_strlit(" s=");
    reveal_strlit(" t=");
    reveal_strlit("-");
    let a = "<134>1 "@ + ts;
    lemma_ascii_concatenado("<134>1 "@, ts);
    lemma_ascii_concatenado(a, " "@);
    lemma_ascii_concatenado(a + " "@, nome);
    lemma_ascii_concatenado(a + " "@ + nome, " hsb - - - "@);
    let b = "g="@ + nome + " s="@;
    lemma_ascii_concatenado("g="@, nome);
    lemma_ascii_concatenado("g="@ + nome, " s="@);
    lemma_numeral_ascii(seq as nat);
    lemma_ascii_concatenado(b, digitos(seq as nat));
    lemma_ascii_concatenado(b + digitos(seq as nat), " t="@);
    if agora < 0 {
        lemma_numeral_ascii((-agora) as nat);
        lemma_ascii_concatenado("-"@, digitos((-agora) as nat));
    } else {
        lemma_numeral_ascii(agora as nat);
    }
    lemma_ascii_concatenado(
        b + digitos(seq as nat) + " t="@,
        inteiro_decimal(agora as int),
    );
    lemma_ascii_concatenado(cabecalho(ts, nome), medicao(nome, seq, agora));
}

/// Monta um frame RFC5424 com exatamente `tamanho` bytes, com a hora corrente; nada se o corte
/// partiria um caractere do nome.
pub fn montar(nome: &str, tamanho: usize, seq: u64, agora: i128, enchimento: &str) -> (r: Option<
    String,
>)
    requires
        enchimento@ == enchimento_de(tamanho as nat + 1),
    ensures
        r matches Some(q) ==> encode_utf8(q@).len() == tamanho && exists|ts: Seq<char>|
            #![trigger quadro_cru(ts, nome@, seq, agora)]
            eh_carimbo(ts) && eh_o_quadro(q@, quadro_cru(ts, nome@, seq, agora), tamanho),
        is_ascii_chars(nome@) ==> r is Some,
        r is None ==> exists|ts: Seq<char>|
            #![trigger quadro_cru(ts, nome@, seq, agora)]
            eh_carimbo(ts) && !cortavel(quadro_cru(ts, nome@, seq, agora), tamanho),
{
    let ts = carimbar();
    let cru = escrever_cru(ts.as_str(), nome, seq, agora);
    proof {
        if is_ascii_chars(nome@) {
            lemma_carimbo_ascii(ts@);
            lemma_cru_ascii(ts@, nome@, seq, agora);
            if encode_utf8(cru@).len() >= tamanho {
                lemma_ascii_um_byte(cru@, 0);
                lemma_ascii_um_byte(cru@, tamanho as int);
            }
        }
    }
    if cru.as_str().as_bytes().len() >= tamanho && !cru.as_str().is_char_boundary(tamanho) {
        return None;
    }
    Some(ajustar(cru, tamanho, enchimento))
}

} // verus!
