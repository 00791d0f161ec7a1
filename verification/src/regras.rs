//! O que a validação e o plano garantem: que configurações se aceitam, por que as outras não, e quanto
//! cabe a cada gerador.

use vstd::prelude::*;
use vstd::string::*;
use vstd::utf8::encode_utf8;

use crate::balanco::{lemma_razao, lemma_razao_vezes, lemma_unidade};
use crate::config::{
    falha_do_gerador, falha_do_nome, nome_permitido, nome_repetido, primeira_falha, soma_dos_pesos,
    Config, ErroConfig, Gerador,
};
use crate::decimal::digitos;
use crate::precisao::{lei_soma_exata, lemma_natural_exato};
use crate::proporcao::{lemma_natural_positivo, lemma_zero};
use crate::reais::{inteiro, um, Real};
use crate::texto::{aparado, citado, contem};
use crate::trechos::lemma_no_meio;

verus! {

// ---- Validação ----

/// Se o nome do `i`-ésimo gerador serve: não só de espaços, de até 16 bytes, só de letras e números
/// ASCII, `-` e `_`, e diferente dos anteriores.
pub open spec fn nome_aceito(gs: Seq<Gerador>, i: int) -> bool {
    &&& aparado(gs[i].nome@).len() > 0
    &&& encode_utf8(gs[i].nome@).len() <= 16
    &&& forall|k: int|
        0 <= k < gs[i].nome@.len() ==> {
            let c = #[trigger] gs[i].nome@[k];
            ('a' <= c <= 'z') || ('A' <= c <= 'Z') || ('0' <= c <= '9') || c == '-' || c == '_'
        }
    &&& forall|j: int| 0 <= j < i ==> (#[trigger] gs[j]).nome@ != gs[i].nome@
}

/// Se os parâmetros do gerador servem: alguma thread, mensagens de pelo menos 128 bytes e, sem taxa
/// própria, um peso acima de zero.
pub open spec fn parametros_aceitos(g: Gerador) -> bool {
    &&& g.threads matches Some(t) ==> t >= 1
    &&& g.tamanho_mensagem matches Some(t) ==> t >= 128
    &&& g.taxa is None ==> !g.peso.menor_ou_igual(Real::do_inteiro(0))
}

/// Se as medidas do teste servem.
pub open spec fn medidas_aceitas(cfg: Config) -> bool {
    let t = cfg.teste;
    &&& t.threads >= 1
    &&& t.tamanho_mensagem >= 128
    &&& t.total_mensagens > 0 || t.aquecimento.total() < t.duracao.total()
    &&& cfg.receptores.quantidade >= 1
    &&& cfg.relay.workers_fila >= 1
}

proof fn lemma_nome(gs: Seq<Gerador>, i: int)
    ensures
        falha_do_nome(gs, i) is None <==> nome_aceito(gs, i),
{
    let nome = gs[i].nome@;
    if nome_aceito(gs, i) {
        assert(nome_permitido(nome));
    }
    if falha_do_nome(gs, i) is None {
        assert forall|k: int| 0 <= k < nome.len() implies ({
            let c = #[trigger] nome[k];
            ('a' <= c <= 'z') || ('A' <= c <= 'Z') || ('0' <= c <= '9') || c == '-' || c == '_'
        }) by {
            assert(nome_permitido(nome));
        }
        assert(!nome_repetido(gs, i));
    }
}

proof fn lemma_falha_existe(gs: Seq<Gerador>, i: int)
    requires
        0 <= i <= gs.len(),
    ensures
        primeira_falha(gs, i) is None <==> forall|k: int|
            i <= k < gs.len() ==> #[trigger] falha_do_gerador(gs, k) is None,
        primeira_falha(gs, i) is Some ==> exists|k: int|
            i <= k < gs.len() && #[trigger] falha_do_gerador(gs, k) == primeira_falha(gs, i),
    decreases gs.len() - i,
{
    if i < gs.len() {
        lemma_falha_existe(gs, i + 1);
        let f = falha_do_gerador(gs, i);
        if f is None {
            if primeira_falha(gs, i + 1) is Some {
                let k = choose|k: int|
                    i + 1 <= k < gs.len() && #[trigger] falha_do_gerador(gs, k) == primeira_falha(
                        gs,
                        i + 1,
                    );
                assert(falha_do_gerador(gs, k) == primeira_falha(gs, i));
            }
        }
    }
}

/// Uma configuração é aceita se e somente se tem geradores, cada um com nome e parâmetros que servem,
/// medidas que servem e, se algum gerador recebe por peso, uma taxa a repartir.
pub proof fn lei_configuracao_aceita(cfg: Config)
    ensures
        cfg.validacao() is Ok <==> {
            let gs = cfg.geradores@;
            &&& gs.len() > 0
            &&& medidas_aceitas(cfg)
            &&& forall|i: int|
                0 <= i < gs.len() ==> nome_aceito(gs, i) && parametros_aceitos(#[trigger] gs[i])
            &&& cfg.teste.taxa > 0 || forall|i: int|
                0 <= i < gs.len() ==> (#[trigger] gs[i]).taxa is Some
        },
{
    let gs = cfg.geradores@;
    lemma_falha_existe(gs, 0);
    assert forall|i: int| 0 <= i < gs.len() implies (#[trigger] falha_do_gerador(gs, i) is None
        <==> nome_aceito(gs, i) && parametros_aceitos(gs[i])) by {
        lemma_nome(gs, i);
    }
    if cfg.validacao() is Ok {
        assert forall|i: int| 0 <= i < gs.len() implies nome_aceito(gs, i) && parametros_aceitos(
            #[trigger] gs[i],
        ) by {
            assert(falha_do_gerador(gs, i) is None);
        }
        if cfg.teste.taxa == 0 {
            assert forall|i: int| 0 <= i < gs.len() implies (#[trigger] gs[i]).taxa is Some by {}
        }
    } else {
        if forall|i: int|
            0 <= i < gs.len() ==> nome_aceito(gs, i) && parametros_aceitos(#[trigger] gs[i]) {
            assert forall|i: int| 0 <= i < gs.len() implies #[trigger] falha_do_gerador(
                gs,
                i,
            ) is None by {
                let g = gs[i];
            }
        }
    }
}

/// Cada erro diz o que de fato impede a configuração, e traz o nome ou o tamanho de que fala.
pub proof fn lei_erro_da_configuracao(cfg: Config, e: ErroConfig)
    requires
        cfg.validacao() == Err::<(), ErroConfig>(e),
    ensures
        ({
            let gs = cfg.geradores@;
            let t = cfg.teste;
            match e {
                ErroConfig::SemGeradores => gs.len() == 0,
                ErroConfig::SemReceptores => cfg.receptores.quantidade == 0,
                ErroConfig::SemThreads => t.threads == 0,
                ErroConfig::TamanhoPequeno { tamanho } => tamanho == t.tamanho_mensagem && tamanho
                    < 128,
                ErroConfig::SemDuracao => t.total_mensagens == 0 && t.duracao.total() == 0,
                ErroConfig::AquecimentoLongo => t.total_mensagens == 0 && t.aquecimento.total()
                    >= t.duracao.total() > 0,
                ErroConfig::SemWorkers => cfg.relay.workers_fila == 0,
                ErroConfig::NomeVazio => exists|i: int|
                    0 <= i < gs.len() && aparado((#[trigger] gs[i]).nome@).len() == 0,
                ErroConfig::NomeLongo { nome } => exists|i: int|
                    0 <= i < gs.len() && (#[trigger] gs[i]).nome == nome && encode_utf8(nome@).len()
                        > 16,
                ErroConfig::NomeInvalido { nome } => exists|i: int|
                    0 <= i < gs.len() && (#[trigger] gs[i]).nome == nome && !nome_permitido(nome@),
                ErroConfig::NomeDuplicado { nome } => exists|i: int, j: int|
                    0 <= j < i < gs.len() && (#[trigger] gs[i]).nome == nome && (
                    #[trigger] gs[j]).nome@ == nome@,
                ErroConfig::GeradorSemThreads { nome } => exists|i: int|
                    0 <= i < gs.len() && (#[trigger] gs[i]).nome == nome && gs[i].threads == Some(
                        0usize,
                    ),
                ErroConfig::GeradorTamanhoPequeno { nome, tamanho } => exists|i: int|
                    0 <= i < gs.len() && (#[trigger] gs[i]).nome == nome && gs[i].tamanho_mensagem
                        == Some(tamanho) && tamanho < 128,
                ErroConfig::PesoInvalido { nome } => exists|i: int|
                    0 <= i < gs.len() && (#[trigger] gs[i]).nome == nome && gs[i].taxa is None
                        && gs[i].peso.menor_ou_igual(Real::do_inteiro(0)),
                ErroConfig::SemTaxa => t.taxa == 0 && exists|i: int|
                    0 <= i < gs.len() && (#[trigger] gs[i]).taxa is None,
            }
        }),
{
    let gs = cfg.geradores@;
    lemma_falha_existe(gs, 0);
    if primeira_falha(gs, 0) is Some {
        let k = choose|k: int|
            0 <= k < gs.len() && #[trigger] falha_do_gerador(gs, k) == primeira_falha(gs, 0);
        let g = gs[k];
        if nome_repetido(gs, k) {
            let j = choose|j: int| 0 <= j < k && (#[trigger] gs[j]).nome@ == gs[k].nome@;
            assert(gs[j].nome@ == gs[k].nome@);
        }
    }
}

/// A mensagem de um erro cita o gerador de que fala, e diz o tamanho recusado e o mínimo.
pub proof fn lei_mensagem_do_erro(e: ErroConfig)
    ensures
        ({
            let m = e.texto_da_mensagem();
            match e {
                ErroConfig::NomeLongo { nome } => contem(m, citado(nome@)),
                ErroConfig::NomeInvalido { nome } => contem(m, citado(nome@)),
                ErroConfig::NomeDuplicado { nome } => contem(m, citado(nome@)),
                ErroConfig::GeradorSemThreads { nome } => contem(m, citado(nome@)),
                ErroConfig::PesoInvalido { nome } => contem(m, citado(nome@)),
                ErroConfig::TamanhoPequeno { tamanho } => contem(m, digitos(tamanho as nat))
                    && contem(m, digitos(128)),
                ErroConfig::GeradorTamanhoPequeno { nome, tamanho } => contem(m, citado(nome@))
                    && contem(m, digitos(tamanho as nat)) && contem(m, digitos(128)),
                _ => m.len() > 0,
            }
        }),
{
    match e {
        ErroConfig::SemGeradores => {
            reveal_strlit("é preciso declarar ao menos um [[gerador]]");
        },
        ErroConfig::SemReceptores => {
            reveal_strlit("receptores.quantidade precisa ser no mínimo 1");
        },
        ErroConfig::SemThreads => {
            reveal_strlit("teste.threads precisa ser no mínimo 1");
        },
        ErroConfig::TamanhoPequeno { tamanho } => {
            let a = "teste.tamanho_mensagem = "@;
            let b = digitos(tamanho as nat);
            let c = " é menor que o mínimo de "@;
            let d = digitos(128);
            let f = " bytes"@;
            lemma_no_meio(a, b, c + d + f);
            assert(a + b + c + d + f =~= a + b + (c + d + f));
            lemma_no_meio(a + b + c, d, f);
        },
        ErroConfig::SemDuracao => {
            reveal_strlit("com total_mensagens = 0, teste.duracao precisa ser maior que zero");
        },
        ErroConfig::AquecimentoLongo => {
            reveal_strlit("teste.aquecimento precisa ser menor que teste.duracao");
        },
        ErroConfig::SemWorkers => {
            reveal_strlit("relay.workers_fila precisa ser no mínimo 1");
        },
        ErroConfig::NomeVazio => {
            reveal_strlit("todo [[gerador]] precisa de um nome");
        },
        ErroConfig::NomeLongo { nome } => {
            lemma_no_meio("nome de gerador "@, citado(nome@), " excede 16 caracteres"@);
        },
        ErroConfig::NomeInvalido { nome } => {
            lemma_no_meio(
                "nome de gerador "@,
                citado(nome@),
                " só pode conter letras, números, '-' e '_'"@,
            );
        },
        ErroConfig::NomeDuplicado { nome } => {
            let a = "nome de gerador duplicado: "@;
            lemma_no_meio(a, citado(nome@), Seq::empty());
            assert(a + citado(nome@) =~= a + citado(nome@) + Seq::empty());
        },
        ErroConfig::GeradorSemThreads { nome } => {
            lemma_no_meio("gerador "@, citado(nome@), ": threads precisa ser no mínimo 1"@);
        },
        ErroConfig::GeradorTamanhoPequeno { nome, tamanho } => {
            let a = "gerador "@;
            let b = citado(nome@);
            let c = ": tamanho_mensagem = "@;
            let d = digitos(tamanho as nat);
            let f = " é menor que o mínimo de "@;
            let g = digitos(128);
            let h = " bytes"@;
            lemma_no_meio(a, b, c + d + f + g + h);
            assert(a + b + c + d + f + g + h =~= a + b + (c + d + f + g + h));
            lemma_no_meio(a + b + c, d, f + g + h);
            assert(a + b + c + d + f + g + h =~= (a + b + c) + d + (f + g + h));
            lemma_no_meio(a + b + c + d + f, g, h);
        },
        ErroConfig::PesoInvalido { nome } => {
            lemma_no_meio(
                "gerador "@,
                citado(nome@),
                ": peso precisa ser maior que zero (ou defina uma taxa absoluta)"@,
            );
        },
        ErroConfig::SemTaxa => {
            reveal_strlit(
                "teste.taxa precisa ser maior que zero para repartir entre os geradores por peso",
            );
        },
    }
}

// ---- Plano ----

/// O plano tem um item por gerador, na ordem, com o que ele declara; o que não declara é o do teste.
pub proof fn lei_item_do_plano(cfg: Config, i: int)
    requires
        0 <= i < cfg.geradores@.len(),
    ensures
        cfg.plano_resolvido().len() == cfg.geradores@.len(),
        ({
            let g = cfg.geradores@[i];
            let p = cfg.plano_resolvido()[i];
            &&& p.nome@ == g.nome@
            &&& p.proto == g.proto
            &&& p.peso == g.peso
            &&& g.threads matches Some(t) ==> p.threads == t
            &&& g.threads is None ==> p.threads == cfg.teste.threads
            &&& g.tamanho_mensagem matches Some(t) ==> p.tamanho_mensagem == t
            &&& g.tamanho_mensagem is None ==> p.tamanho_mensagem == cfg.teste.tamanho_mensagem
            &&& p.taxa_explicita <==> g.taxa is Some
            &&& g.taxa matches Some(t) ==> p.taxa == t
        }),
{
}

/// A soma dos pesos naturais dos `n` primeiros geradores sem taxa própria.
pub open spec fn pesos_naturais(gs: Seq<Gerador>, ws: Seq<nat>, n: int) -> nat
    decreases n,
{
    if n <= 0 {
        0
    } else if gs[n - 1].taxa is None {
        pesos_naturais(gs, ws, n - 1) + ws[n - 1]
    } else {
        pesos_naturais(gs, ws, n - 1)
    }
}

proof fn lemma_soma_dos_pesos(gs: Seq<Gerador>, ws: Seq<nat>, n: int)
    requires
        0 <= n <= gs.len(),
        ws.len() == gs.len(),
        forall|i: int|
            0 <= i < gs.len() ==> (#[trigger] gs[i]).peso == Real::do_inteiro(ws[i] as int),
        pesos_naturais(gs, ws, n) < 0x20_0000_0000_0000,
    ensures
        soma_dos_pesos(gs, n) == Real::do_inteiro(pesos_naturais(gs, ws, n) as int),
    decreases n,
{
    if n > 0 {
        lemma_soma_dos_pesos(gs, ws, n - 1);
        let g = gs[n - 1];
        if g.taxa is None {
            lei_soma_exata(pesos_naturais(gs, ws, n - 1), ws[n - 1]);
        }
    }
}

/// Com pesos naturais, a taxa de cada gerador sem taxa própria é a parte da taxa do teste que o seu
/// peso é do total, com erro de menos de uma mensagem por segundo.
pub proof fn lei_taxa_proporcional(cfg: Config, ws: Seq<nat>, i: int)
    requires
        0 <= i < cfg.geradores@.len() == ws.len(),
        forall|k: int|
            0 <= k < ws.len() ==> (#[trigger] cfg.geradores@[k]).peso == Real::do_inteiro(
                ws[k] as int,
            ),
        cfg.geradores@[i].taxa is None,
        0 < cfg.teste.taxa < 0x4_0000_0000_0000,
        0 < ws[i] <= pesos_naturais(cfg.geradores@, ws, ws.len() as int) < 0x20_0000_0000_0000,
    ensures
        ({
            let total = pesos_naturais(cfg.geradores@, ws, ws.len() as int) as int;
            let erro = cfg.plano_resolvido()[i].taxa * total - cfg.teste.taxa * ws[i];
            -total < erro < total
        }),
{
    let gs = cfg.geradores@;
    let total = pesos_naturais(gs, ws, ws.len() as int);
    lemma_soma_dos_pesos(gs, ws, ws.len() as int);
    lemma_natural_exato(total);
    lemma_zero();
    lemma_unidade();
    let peso = gs[i].peso;
    assert(peso == Real::do_inteiro(ws[i] as int));
    let soma = Real::do_inteiro(total as int);
    lemma_natural_positivo(total as u64);
    assert(!soma.menor_ou_igual(Real::do_inteiro(0)));
    lemma_fatia_da_taxa(ws[i], total, cfg.teste.taxa);
}

/// A parte `w` de `total` da taxa, arredondada.
proof fn lemma_fatia_da_taxa(w: nat, total: nat, taxa: u64)
    requires
        0 < w <= total < 0x20_0000_0000_0000,
        0 < taxa < 0x4_0000_0000_0000,
    ensures
        ({
            let f = Real::do_inteiro(w as int).quociente(Real::do_inteiro(total as int));
            let r = Real::do_inteiro(taxa as int).produto(f).arredondado_u64();
            -(total as int) < r * total - taxa * w < total
        }),
{
    let u = um() as int;
    let a = Real::do_inteiro(taxa as int);
    let f = Real::do_inteiro(w as int).quociente(Real::do_inteiro(total as int));
    let x = a.produto(f);
    lemma_unidade();
    lemma_natural_exato(taxa as nat);
    lemma_razao(w, total);
    lemma_razao_vezes(f, w, total, taxa as nat);
    assert(x == f.produto(a)) by {
        let m = inteiro(a.mag());
        let n = inteiro(f.mag());
        assert(m * n == n * m) by (nonlinear_arith);
    }
    let p = inteiro(x.mag()) as int;
    let n = (2 * p + u) / (2 * u);
    let b = total as int;
    let exato = taxa * w;
    let e = p * b - exato * u;
    assert(exato * u == taxa as nat * w * um());
    assert(0 <= exato <= taxa * b && exato * u <= taxa * b * u) by (nonlinear_arith)
        requires
            0 < w <= b,
            0 < taxa,
            exato == taxa * w,
            u > 0,
    ;
    let s: int = 0x8_0000_0000_0000;
    let bu = b * u;
    assert(-bu < 2 * e < bu) by (nonlinear_arith)
        requires
            -(exato * u) <= e * s <= exato * u,
            0 <= exato * u <= taxa * b * u,
            bu == b * u,
            taxa < 0x4_0000_0000_0000,
            s == 0x8_0000_0000_0000,
            b > 0,
            u > 0,
    ;
    let g = n * u - p;
    assert(-u <= 2 * g <= u) by (nonlinear_arith)
        requires
            n == (2 * p + u) / (2 * u),
            g == n * u - p,
            u > 0,
    ;
    let dif = n * b - exato;
    assert(dif * u == g * b + e) by (nonlinear_arith)
        requires
            dif == n * b - exato,
            g == n * u - p,
            e == p * b - exato * u,
    ;
    assert(-b < dif < b) by (nonlinear_arith)
        requires
            dif * u == g * b + e,
            -u <= 2 * g <= u,
            -bu < 2 * e < bu,
            bu == b * u,
            b > 0,
            u > 0,
    ;
    assert(0 <= n <= taxa + 1) by (nonlinear_arith)
        requires
            dif == n * b - exato,
            -b < dif < b,
            0 <= exato <= taxa * b,
            b > 0,
            n == (2 * p + u) / (2 * u),
            p >= 0,
            u > 0,
    ;
}

} // verus!
