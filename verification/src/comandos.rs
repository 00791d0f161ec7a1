//! O que os comandos dos containers garantem: lidos de volta, dão o que a configuração pede.

use vstd::arithmetic::power2::lemma_pow2_pos;
use vstd::prelude::*;

use crate::config::{Config, GeradorPlano};
use crate::decimais::{decimal_lido, lei_decimal_mais_proximo};
use crate::decimal::{dez, digitos};
use crate::duracao::Duracao;
use crate::inteiros::{inteiro_escrito, lei_numeral_lido};
use crate::numerais::escrito;
use crate::orquestrador::{args_da_carga, args_da_identidade, args_do_gerador, args_do_teste};
use crate::podman::{args_das_montagens, args_de_subir};
use crate::reais::{inteiro, um};
use crate::ritmo::lemma_segundos_reais;

verus! {

// ---- Opções ----

/// O valor de uma opção numa linha de comando que, depois do programa, alterna opções e valores.
pub open spec fn valor_da_opcao(args: Seq<Seq<char>>, opcao: Seq<char>) -> Option<Seq<char>>
    decreases args.len(),
{
    if args.len() < 2 {
        None
    } else if args[0] == opcao {
        Some(args[1])
    } else {
        valor_da_opcao(args.skip(2), opcao)
    }
}

/// A `i`-ésima opção.
spec fn chave(args: Seq<Seq<char>>, i: int) -> Seq<char> {
    args[2 * i]
}

proof fn lemma_valor_da_opcao(args: Seq<Seq<char>>, j: int, opcao: Seq<char>)
    requires
        0 <= 2 * j,
        2 * j + 1 < args.len(),
        chave(args, j) == opcao,
        forall|i: int| 0 <= i < j ==> #[trigger] chave(args, i) != opcao,
    ensures
        valor_da_opcao(args, opcao) == Some(args[2 * j + 1]),
    decreases j,
{
    if j > 0 {
        let resto = args.skip(2);
        assert(chave(args, 0) != opcao);
        assert forall|i: int| 0 <= i < j - 1 implies #[trigger] chave(resto, i) != opcao by {
            assert(chave(resto, i) == chave(args, i + 1));
        }
        lemma_valor_da_opcao(resto, j - 1, opcao);
    }
}

/// Os nomes das opções do gerador, na ordem em que o comando as traz.
spec fn opcoes() -> Seq<Seq<char>> {
    seq![
        "hugesyslogs"@,
        "--nome"@,
        "--proto"@,
        "--alvo"@,
        "--taxa"@,
        "--threads"@,
        "--tamanho"@,
        "--duracao"@,
        "--aquecimento"@,
        "--total"@,
        "--saida"@,
    ]
}

proof fn lemma_opcoes_distintas(i: int, j: int)
    requires
        0 <= i < j < 11,
    ensures
        opcoes()[i] != opcoes()[j],
{
    reveal_strlit("hugesyslogs");
    reveal_strlit("--nome");
    reveal_strlit("--proto");
    reveal_strlit("--alvo");
    reveal_strlit("--taxa");
    reveal_strlit("--threads");
    reveal_strlit("--tamanho");
    reveal_strlit("--duracao");
    reveal_strlit("--aquecimento");
    reveal_strlit("--total");
    reveal_strlit("--saida");
    assert("hugesyslogs"@[0] == 'h');
    assert("--nome"@[0] == '-' && "--nome"@[2] == 'n');
    assert("--proto"@[0] == '-' && "--proto"@[2] == 'p');
    assert("--alvo"@[0] == '-' && "--alvo"@[2] == 'a' && "--alvo"@[3] == 'l');
    assert("--taxa"@[0] == '-' && "--taxa"@[2] == 't' && "--taxa"@[3] == 'a' && "--taxa"@[4] == 'x');
    assert("--threads"@[0] == '-' && "--threads"@[2] == 't' && "--threads"@[3] == 'h');
    assert("--tamanho"@[0] == '-' && "--tamanho"@[2] == 't' && "--tamanho"@[3] == 'a'
        && "--tamanho"@[4] == 'm');
    assert("--duracao"@[0] == '-' && "--duracao"@[2] == 'd');
    assert("--aquecimento"@[0] == '-' && "--aquecimento"@[2] == 'a' && "--aquecimento"@[3] == 'q');
    assert("--total"@[0] == '-' && "--total"@[2] == 't' && "--total"@[3] == 'o');
    assert("--saida"@[0] == '-' && "--saida"@[2] == 's');
}

proof fn lemma_opcoes_do_gerador(cfg: Config, p: GeradorPlano)
    ensures
        args_do_gerador(cfg, p).len() == 22,
        forall|j: int|
            0 <= j < 11 ==> args_do_gerador(cfg, p)[2 * j] == #[trigger] opcoes()[j],
{
    let a = args_da_identidade(p);
    let b = args_da_carga(p);
    let c = args_do_teste(cfg);
    let args = args_do_gerador(cfg, p);
    assert(a.len() == 8 && b.len() == 6 && c.len() == 8);
    assert forall|j: int| 0 <= j < 11 implies args[2 * j] == #[trigger] opcoes()[j] by {
        if j < 4 {
            assert(args[2 * j] == a[2 * j]);
        } else if j < 7 {
            assert(args[2 * j] == b[2 * j - 8]);
        } else {
            assert(args[2 * j] == c[2 * j - 14]);
        }
    }
}

/// O valor da `j`-ésima opção está logo depois dela.
proof fn lemma_opcao_do_gerador(cfg: Config, p: GeradorPlano, j: int)
    requires
        0 <= j < 11,
    ensures
        valor_da_opcao(args_do_gerador(cfg, p), opcoes()[j]) == Some(
            args_do_gerador(cfg, p)[2 * j + 1],
        ),
{
    let args = args_do_gerador(cfg, p);
    lemma_opcoes_do_gerador(cfg, p);
    assert forall|i: int| 0 <= i < j implies #[trigger] chave(args, i) != opcoes()[j] by {
        lemma_opcoes_distintas(i, j);
        assert(args[2 * i] == opcoes()[i]);
    }
    assert(args[2 * j] == opcoes()[j]);
    lemma_valor_da_opcao(args, j, opcoes()[j]);
}

/// Lido de volta, o comando de um gerador dá o que o plano e o teste pedem: o nome, o protocolo, a
/// taxa, as threads, o tamanho e o total.
pub proof fn lei_comando_do_gerador(cfg: Config, p: GeradorPlano)
    ensures
        ({
            let args = args_do_gerador(cfg, p);
            &&& valor_da_opcao(args, "--nome"@) == Some(p.nome@)
            &&& valor_da_opcao(args, "--proto"@) == Some(p.proto.escrito())
            &&& valor_da_opcao(args, "--taxa"@) matches Some(t) && inteiro_escrito(t) == Some(
                p.taxa as int,
            )
            &&& valor_da_opcao(args, "--threads"@) matches Some(t) && inteiro_escrito(t) == Some(
                p.threads as int,
            )
            &&& valor_da_opcao(args, "--tamanho"@) matches Some(t) && inteiro_escrito(t) == Some(
                p.tamanho_mensagem as int,
            )
            &&& valor_da_opcao(args, "--total"@) matches Some(t) && inteiro_escrito(t) == Some(
                cfg.teste.total_mensagens as int,
            )
            &&& valor_da_opcao(args, "--saida"@) == Some("/out"@)
        }),
{
    let args = args_do_gerador(cfg, p);
    let a = args_da_identidade(p);
    let b = args_da_carga(p);
    let c = args_do_teste(cfg);
    assert(a.len() == 8 && b.len() == 6 && c.len() == 8);
    lemma_opcao_do_gerador(cfg, p, 1);
    lemma_opcao_do_gerador(cfg, p, 2);
    lemma_opcao_do_gerador(cfg, p, 4);
    lemma_opcao_do_gerador(cfg, p, 5);
    lemma_opcao_do_gerador(cfg, p, 6);
    lemma_opcao_do_gerador(cfg, p, 9);
    lemma_opcao_do_gerador(cfg, p, 10);
    assert(args[3] == a[3] && args[5] == a[5]);
    assert(args[9] == b[1] && args[11] == b[3] && args[13] == b[5]);
    assert(args[19] == c[5] && args[21] == c[7]);
    lei_numeral_lido(p.taxa as nat);
    lei_numeral_lido(p.threads as nat);
    lei_numeral_lido(p.tamanho_mensagem as nat);
    lei_numeral_lido(cfg.teste.total_mensagens as nat);
}

/// O gerador fala com o relay na porta de entrada.
pub proof fn lei_alvo_do_comando(cfg: Config, p: GeradorPlano)
    ensures
        valor_da_opcao(args_do_gerador(cfg, p), "--alvo"@) == Some("relay:"@ + digitos(5514)),
{
    let args = args_do_gerador(cfg, p);
    let a = args_da_identidade(p);
    assert(a.len() == 8);
    lemma_opcao_do_gerador(cfg, p, 3);
    assert(args[7] == a[7]);
}

/// A duração e o aquecimento vão no comando em segundos com três casas, no milissegundo mais próximo.
pub proof fn lei_tempos_do_comando(cfg: Config, p: GeradorPlano)
    requires
        cfg.teste.duracao.total() < 0x4_0000_0000_0000,
        cfg.teste.aquecimento.total() < 0x4_0000_0000_0000,
    ensures
        valor_da_opcao(args_do_gerador(cfg, p), "--duracao"@) matches Some(t) && t[t.len() - 4]
            == '.' && -500_000 <= decimal_lido(t, 3) * 1_000_000 - cfg.teste.duracao.total()
            <= 500_000,
        valor_da_opcao(args_do_gerador(cfg, p), "--aquecimento"@) matches Some(t) && t[t.len() - 4]
            == '.' && -500_000 <= decimal_lido(t, 3) * 1_000_000 - cfg.teste.aquecimento.total()
            <= 500_000,
{
    let args = args_do_gerador(cfg, p);
    let a = args_da_identidade(p);
    let b = args_da_carga(p);
    let c = args_do_teste(cfg);
    assert(a.len() == 8 && b.len() == 6 && c.len() == 8);
    lemma_opcao_do_gerador(cfg, p, 7);
    lemma_opcao_do_gerador(cfg, p, 8);
    assert(args[15] == c[1] && args[17] == c[3]);
    lemma_milissegundos_escritos(cfg.teste.duracao);
    lemma_milissegundos_escritos(cfg.teste.aquecimento);
}

proof fn lemma_milissegundos_escritos(d: Duracao)
    requires
        d.total() < 0x4_0000_0000_0000,
    ensures
        ({
            let t = escrito(d.segundos_reais(), 3, false);
            &&& t.len() > 4
            &&& t[t.len() - 4] == '.'
            &&& -500_000 <= decimal_lido(t, 3) * 1_000_000 - d.total() <= 500_000
        }),
{
    let x = d.segundos_reais();
    let u = um() as int;
    let s = inteiro(x.mag()) as int;
    let tot = d.total() as int;
    lemma_segundos_reais(d);
    lei_decimal_mais_proximo(x, 3);
    assert(dez(3) == 1000) by {
        reveal_with_fuel(dez, 4);
    }
    lemma_pow2_pos(1074);
    let q = decimal_lido(escrito(x, 3, false), 3) as int;
    let t: int = 0x20_0000_0000_0000;
    let e = s * 1_000_000_000 - tot * u;
    assert(-u < e < u) by (nonlinear_arith)
        requires
            -(3 * (tot * u)) <= e * t <= 3 * (tot * u),
            0 <= tot < 0x4_0000_0000_0000,
            t == 0x20_0000_0000_0000,
            u > 0,
    ;
    let g = q * u - s * 1000;
    assert(-u <= 2 * g <= u);
    let dif = q * 1_000_000 - tot;
    assert(dif * u == 1_000_000 * g + e) by (nonlinear_arith)
        requires
            dif == q * 1_000_000 - tot,
            g == q * u - s * 1000,
            e == s * 1_000_000_000 - tot * u,
    ;
    assert(-500_001 < dif < 500_001) by (nonlinear_arith)
        requires
            dif * u == 1_000_000 * g + e,
            -u <= 2 * g <= u,
            -u < e < u,
            u > 0,
    ;
}

/// Comandos iguais são do mesmo gerador no mesmo teste: configurações com taxas, threads, tamanhos ou
/// totais diferentes dão comandos diferentes.
pub proof fn lei_comandos_distintos(cfg: Config, p: GeradorPlano, outra: Config, q: GeradorPlano)
    requires
        args_do_gerador(cfg, p) == args_do_gerador(outra, q),
    ensures
        p.nome@ == q.nome@,
        p.proto.escrito() == q.proto.escrito(),
        p.taxa == q.taxa,
        p.threads == q.threads,
        p.tamanho_mensagem == q.tamanho_mensagem,
        cfg.teste.total_mensagens == outra.teste.total_mensagens,
{
    lei_comando_do_gerador(cfg, p);
    lei_comando_do_gerador(outra, q);
}

// ---- Subida dos containers ----

proof fn lemma_montagens(ms: Seq<Seq<char>>, k: int)
    requires
        0 <= k < ms.len(),
    ensures
        args_das_montagens(ms).len() == 2 * ms.len(),
        args_das_montagens(ms)[2 * k] == "-v"@,
        args_das_montagens(ms)[2 * k + 1] == ms[k],
    decreases ms.len(),
{
    let antes = ms.drop_last();
    if ms.len() == 1 {
        assert(args_das_montagens(antes).len() == 0);
    } else if k < ms.len() - 1 {
        lemma_montagens(antes, k);
    } else {
        lemma_montagens(antes, 0);
    }
}

proof fn lemma_tamanho_das_montagens(ms: Seq<Seq<char>>)
    ensures
        args_das_montagens(ms).len() == 2 * ms.len(),
    decreases ms.len(),
{
    if ms.len() > 0 {
        lemma_tamanho_das_montagens(ms.drop_last());
    }
}

/// Um container sobe em segundo plano com o seu nome, na sua rede, com o seu apelido, com cada uma das
/// montagens, na ordem, e com o comando logo depois da imagem.
pub proof fn lei_subida(
    nome: Seq<char>,
    imagem: Seq<char>,
    rede: Seq<char>,
    apelido: Seq<char>,
    montagens: Seq<Seq<char>>,
    comando: Seq<Seq<char>>,
)
    ensures
        ({
            let args = args_de_subir(nome, imagem, rede, apelido, montagens, comando);
            let n = montagens.len() as int;
            &&& args.take(2) == seq!["run"@, "-d"@]
            &&& valor_da_opcao(args, "--name"@) == Some(nome)
            &&& valor_da_opcao(args, "--network"@) == Some(rede)
            &&& valor_da_opcao(args, "--network-alias"@) == Some(apelido)
            &&& valor_da_opcao(args, "--hostname"@) == Some(apelido)
            &&& forall|k: int|
                0 <= k < n ==> args.subrange(10 + 2 * k, 12 + 2 * k) == seq![
                    "-v"@,
                    #[trigger] montagens[k],
                ]
            &&& args.skip(10 + 2 * n) == seq![imagem] + comando
        }),
{
    let args = args_de_subir(nome, imagem, rede, apelido, montagens, comando);
    let n = montagens.len() as int;
    reveal_strlit("run");
    reveal_strlit("--name");
    reveal_strlit("--network");
    reveal_strlit("--network-alias");
    reveal_strlit("--hostname");
    assert("run"@.len() == 3 && "--name"@.len() == 6 && "--network"@.len() == 9
        && "--network-alias"@.len() == 15 && "--hostname"@.len() == 10);
    lemma_tamanho_das_montagens(montagens);
    assert(args[0] == "run"@);
    assert(args[2] == "--name"@ && args[3] == nome);
    assert(args[4] == "--network"@ && args[5] == rede);
    assert(args[6] == "--network-alias"@ && args[7] == apelido);
    assert(args[8] == "--hostname"@ && args[9] == apelido);
    assert(args.take(2) =~= seq!["run"@, "-d"@]);
    assert forall|i: int| 0 <= i < 1 implies #[trigger] chave(args, i) != "--name"@ by {}
    lemma_valor_da_opcao(args, 1, "--name"@);
    assert forall|i: int| 0 <= i < 2 implies #[trigger] chave(args, i) != "--network"@ by {
        assert(i == 0 || i == 1);
    }
    lemma_valor_da_opcao(args, 2, "--network"@);
    assert forall|i: int| 0 <= i < 3 implies #[trigger] chave(args, i) != "--network-alias"@ by {
        assert(i == 0 || i == 1 || i == 2);
    }
    lemma_valor_da_opcao(args, 3, "--network-alias"@);
    assert forall|i: int| 0 <= i < 4 implies #[trigger] chave(args, i) != "--hostname"@ by {
        assert(i == 0 || i == 1 || i == 2 || i == 3);
    }
    lemma_valor_da_opcao(args, 4, "--hostname"@);
    assert forall|k: int| 0 <= k < n implies args.subrange(10 + 2 * k, 12 + 2 * k) == seq![
        "-v"@,
        #[trigger] montagens[k],
    ] by {
        lemma_montagens(montagens, k);
        let partes = args_das_montagens(montagens);
        let i = 10 + 2 * k;
        assert(args[i] == partes[i - 10]);
        assert(args[i + 1] == partes[i - 10 + 1]);
        assert(args.subrange(i, i + 2) =~= seq!["-v"@, montagens[k]]);
    }
    assert(args.skip(10 + 2 * n) =~= seq![imagem] + comando);
}

} // verus!
